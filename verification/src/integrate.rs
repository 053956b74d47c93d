use vstd::prelude::*;

verus! {

use crate::config::{FORCE_MAX, MAX_CAP, PAIR_FORCE_MAX, SCALE, SimConfig};
use crate::forces::{compute_forces, net_fx, net_fy};
use crate::math::{
    iabs, lemma_abs_mul, lemma_div_bound, lemma_mdiv_le, lemma_tdiv_abs, mdiv, mul_div,
};
use crate::node::{Node, all_wf};
use vstd::arithmetic::div_mod::{lemma_div_is_ordered, lemma_div_is_ordered_by_denominator,
    lemma_div_pos_is_pos};
use vstd::arithmetic::mul::lemma_mul_inequality;

/// Acceleration from a force component and a positive mass: `f / m` in
/// simulation units, so `f * SCALE / m` in fixed-point, rounded toward
/// zero.
pub open spec fn accel_of(f: int, m: int) -> int {
    mdiv(f, SCALE as int, m)
}

/// Velocity component after one step: the acceleration is applied over the
/// timestep, then the drag multiplier is applied to the updated velocity.
pub open spec fn vel_next(v: int, acc: int, dt: int, drag: int) -> int {
    mdiv(v + mdiv(acc, dt, SCALE as int), drag, SCALE as int)
}

/// Position component after one step, moved by the updated velocity —
/// semi-implicit Euler ordering.
pub open spec fn pos_next(p: int, vnew: int, dt: int) -> int {
    p + mdiv(vnew, dt, SCALE as int)
}

/// `q` is `p` taken one Euler step under net force `(fx, fy)`: the force is
/// stored, acceleration is force over mass, velocity gains acceleration
/// times the timestep (then drag), and position moves by the updated
/// velocity times the timestep. Mass and charge are untouched.
pub open spec fn node_updated(p: Node, q: Node, fx: int, fy: int, cfg: SimConfig) -> bool {
    let ax = accel_of(fx, p.m as int);
    let ay = accel_of(fy, p.m as int);
    let vx = vel_next(p.vx as int, ax, cfg.dt as int, cfg.drag as int);
    let vy = vel_next(p.vy as int, ay, cfg.dt as int, cfg.drag as int);
    &&& q.m == p.m
    &&& q.c == p.c
    &&& q.fx == fx
    &&& q.fy == fy
    &&& q.ax == ax
    &&& q.ay == ay
    &&& q.vx == vx
    &&& q.vy == vy
    &&& q.px == pos_next(p.px as int, vx, cfg.dt as int)
    &&& q.py == pos_next(p.py as int, vy, cfg.dt as int)
}

/// `post` is `pre` taken one whole frame forward: every body is Euler
/// stepped under the net force the pre-state exerts on it.
pub open spec fn step_rel(pre: Seq<Node>, post: Seq<Node>, cfg: SimConfig) -> bool {
    &&& post.len() == pre.len()
    &&& forall|i: int|
        0 <= i < pre.len() ==> node_updated(
            pre[i],
            #[trigger] post[i],
            net_fx(pre[i], pre, cfg),
            net_fy(pre[i], pre, cfg),
            cfg,
        )
}

/// One Euler step of a single body under a given net force. Deterministic:
/// the result is a closed-form function of force, mass, velocity, position
/// and the configuration, stated exactly by [`node_updated`].
#[verifier::rlimit(100)]
pub fn integrate_node(p: &Node, fx: i64, fy: i64, cfg: &SimConfig) -> (q: Node)
    requires
        p.wf(),
        cfg.wf(),
        iabs(fx as int) <= FORCE_MAX,
        iabs(fy as int) <= FORCE_MAX,
    ensures
        node_updated(*p, q, fx as int, fy as int, *cfg),
{
    proof {
        lemma_mul_div_fits(fx as int, SCALE as int, p.m as int, FORCE_MAX as int, SCALE as int);
        lemma_mul_div_fits(fy as int, SCALE as int, p.m as int, FORCE_MAX as int, SCALE as int);
    }
    let ax = mul_div(fx, SCALE, p.m);
    let ay = mul_div(fy, SCALE, p.m);
    proof {
        assert(iabs(ax as int) <= 2_000_000_000_000_000_000);
        assert(iabs(ay as int) <= 2_000_000_000_000_000_000);
        lemma_tdiv_abs((ax as int) * (cfg.dt as int), SCALE as int);
        lemma_mdiv_le(ax as int, cfg.dt as int, SCALE as int);
        lemma_tdiv_abs((ay as int) * (cfg.dt as int), SCALE as int);
        lemma_mdiv_le(ay as int, cfg.dt as int, SCALE as int);
    }
    let dvx = mul_div(ax, cfg.dt, SCALE);
    let dvy = mul_div(ay, cfg.dt, SCALE);
    let vx1 = p.vx + dvx;
    let vy1 = p.vy + dvy;
    proof {
        lemma_tdiv_abs((vx1 as int) * (cfg.drag as int), SCALE as int);
        lemma_mdiv_le(vx1 as int, cfg.drag as int, SCALE as int);
        lemma_tdiv_abs((vy1 as int) * (cfg.drag as int), SCALE as int);
        lemma_mdiv_le(vy1 as int, cfg.drag as int, SCALE as int);
    }
    let vx2 = mul_div(vx1, cfg.drag, SCALE);
    let vy2 = mul_div(vy1, cfg.drag, SCALE);
    proof {
        lemma_tdiv_abs((vx2 as int) * (cfg.dt as int), SCALE as int);
        lemma_mdiv_le(vx2 as int, cfg.dt as int, SCALE as int);
        lemma_tdiv_abs((vy2 as int) * (cfg.dt as int), SCALE as int);
        lemma_mdiv_le(vy2 as int, cfg.dt as int, SCALE as int);
    }
    let dpx = mul_div(vx2, cfg.dt, SCALE);
    let dpy = mul_div(vy2, cfg.dt, SCALE);
    let px1 = p.px + dpx;
    let py1 = p.py + dpy;
    Node {
        m: p.m,
        c: p.c,
        px: px1,
        py: py1,
        vx: vx2,
        vy: vy2,
        ax,
        ay,
        fx,
        fy,
    }
}

/// The quotient `|a * b| / d` is bounded by the product of the bounds on
/// `|a|` and `b`, for any positive divisor.
proof fn lemma_mul_div_fits(a: int, b: int, d: int, amax: int, bmax: int)
    requires
        0 < d,
        0 <= iabs(a) <= amax,
        0 <= b <= bmax,
    ensures
        0 <= iabs(a * b) / d <= amax * bmax,
{
    lemma_abs_mul(a, b);
    lemma_mul_inequality(iabs(a), amax, iabs(b));
    assert(iabs(a) * iabs(b) == iabs(b) * iabs(a) && amax * iabs(b) == iabs(b) * amax)
        by (nonlinear_arith);
    lemma_mul_inequality(iabs(b), bmax, amax);
    assert(bmax * amax == amax * bmax) by (nonlinear_arith);
    assert(iabs(b) == b);
    lemma_div_pos_is_pos(iabs(a * b), d);
    lemma_div_is_ordered(iabs(a * b), amax * bmax, d);
    lemma_div_is_ordered_by_denominator(amax * bmax, 1, d);
    assert(amax * bmax / 1 == amax * bmax) by (nonlinear_arith);
}

/// The sequential integration stage: turns the index-aligned force vector
/// into the next kinematic state of every body, in place, in index order.
/// Exact: every output field is the closed-form Euler update of the input.
pub fn integrate(nodes: &mut Vec<Node>, forces: &Vec<(i64, i64)>, cfg: &SimConfig)
    requires
        all_wf(old(nodes)@),
        cfg.wf(),
        forces.len() == old(nodes).len(),
        forall|i: int|
            0 <= i < forces@.len() ==> iabs((#[trigger] forces@[i]).0 as int) <= FORCE_MAX
                && iabs(forces@[i].1 as int) <= FORCE_MAX,
    ensures
        final(nodes).len() == old(nodes).len(),
        forall|i: int|
            0 <= i < old(nodes)@.len() ==> node_updated(
                old(nodes)@[i],
                #[trigger] final(nodes)@[i],
                forces@[i].0 as int,
                forces@[i].1 as int,
                *cfg,
            ),
{
    let mut out: Vec<Node> = Vec::new();
    let mut i: usize = 0;
    while i < nodes.len()
        invariant
            nodes@ == old(nodes)@,
            all_wf(nodes@),
            cfg.wf(),
            forces.len() == nodes.len(),
            forall|t: int|
                0 <= t < forces@.len() ==> iabs((#[trigger] forces@[t]).0 as int) <= FORCE_MAX
                    && iabs(forces@[t].1 as int) <= FORCE_MAX,
            i <= nodes.len(),
            out.len() == i,
            forall|t: int|
                0 <= t < i ==> node_updated(
                    nodes@[t],
                    #[trigger] out@[t],
                    forces@[t].0 as int,
                    forces@[t].1 as int,
                    *cfg,
                ),
        decreases nodes.len() - i,
    {
        let p = nodes[i];
        let f = forces[i];
        let q = integrate_node(&p, f.0, f.1, cfg);
        out.push(q);
        i += 1;
    }
    *nodes = out;
}

/// One whole force-and-motion update of the set, as a frame performs it:
/// net forces are computed from an immutable snapshot of the current state
/// (the fan-out/fan-in stage), and only then is every body integrated
/// sequentially, so no body's update can observe another's.
pub fn update_nodes_vec(nodes: &mut Vec<Node>, cfg: &SimConfig)
    requires
        all_wf(old(nodes)@),
        cfg.wf(),
        old(nodes).len() <= MAX_CAP,
    ensures
        final(nodes).len() == old(nodes).len(),
        step_rel(old(nodes)@, final(nodes)@, *cfg),
{
    let forces = compute_forces(nodes, cfg);
    proof {
        assert forall|i: int| 0 <= i < forces@.len() implies iabs(
            (#[trigger] forces@[i]).0 as int,
        ) <= FORCE_MAX && iabs(forces@[i].1 as int) <= FORCE_MAX by {
            assert(nodes@.len() * PAIR_FORCE_MAX <= MAX_CAP * PAIR_FORCE_MAX)
                by (nonlinear_arith)
                requires
                    nodes@.len() <= MAX_CAP,
                    PAIR_FORCE_MAX > 0,
            ;
        }
    }
    integrate(nodes, &forces, cfg);
}

} // verus!
