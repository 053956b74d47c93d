use vstd::prelude::*;

verus! {

use crate::config::{MAX_CAP, PAIR_FORCE_MAX, SimConfig};
use crate::math::{
    abs64, iabs, isqrt, lemma_abs_mul, lemma_div_bound, lemma_mdiv_le, lemma_sqrt_ge_component,
    lemma_sqrt_le, lemma_tdiv_abs, lemma_tdiv_neg, max_i, mdiv, mul_div, sqrt_floor,
};
use crate::node::{Node, all_wf};
use vstd::arithmetic::div_mod::lemma_div_of0;

/// Two bodies occupy the exact same coordinates. Such a pair is skipped by
/// the force law: it contributes no force in either direction.
pub open spec fn coincident(a: Node, b: Node) -> bool {
    a.px == b.px && a.py == b.py
}

/// Squared Euclidean separation of two bodies.
pub open spec fn dist2(a: Node, b: Node) -> int {
    let dx = b.px - a.px;
    let dy = b.py - a.py;
    dx * dx + dy * dy
}

/// Separation used by the force law: the rounded-down Euclidean distance,
/// clamped from below by `d_min` (the soft-core regularization that bounds
/// the force at close range).
pub open spec fn dist(a: Node, b: Node, d_min: int) -> int {
    max_i(sqrt_floor(dist2(a, b)), d_min)
}

/// Magnitude of the gravity term, `g * m_a * m_b / d^2`; always attractive.
pub open spec fn grav_scalar(a: Node, b: Node, cfg: SimConfig) -> int {
    let d = dist(a, b, cfg.d_min as int);
    (cfg.g * a.m * b.m) / (d * d)
}

/// Signed magnitude of the charge term, `-k * c_a * c_b / d^2`, applied
/// along the same direction as gravity: like-signed charges give a negative
/// scalar (repulsion), opposite-signed charges a positive one (attraction).
pub open spec fn coulomb_scalar(a: Node, b: Node, cfg: SimConfig) -> int {
    let d = dist(a, b, cfg.d_min as int);
    let mag = (cfg.k * iabs(a.c as int) * iabs(b.c as int)) / (d * d);
    if (a.c as int) * (b.c as int) >= 0 {
        -mag
    } else {
        mag
    }
}

/// x component of the gravity contribution of `b` on `a`: the gravity
/// scalar projected on the unit direction from `a` toward `b`.
pub open spec fn grav_fx(a: Node, b: Node, cfg: SimConfig) -> int {
    mdiv(grav_scalar(a, b, cfg), b.px - a.px, dist(a, b, cfg.d_min as int))
}

/// y component of the gravity contribution of `b` on `a`.
pub open spec fn grav_fy(a: Node, b: Node, cfg: SimConfig) -> int {
    mdiv(grav_scalar(a, b, cfg), b.py - a.py, dist(a, b, cfg.d_min as int))
}

/// x component of the charge contribution of `b` on `a`.
pub open spec fn coulomb_fx(a: Node, b: Node, cfg: SimConfig) -> int {
    mdiv(coulomb_scalar(a, b, cfg), b.px - a.px, dist(a, b, cfg.d_min as int))
}

/// y component of the charge contribution of `b` on `a`.
pub open spec fn coulomb_fy(a: Node, b: Node, cfg: SimConfig) -> int {
    mdiv(coulomb_scalar(a, b, cfg), b.py - a.py, dist(a, b, cfg.d_min as int))
}

/// x component of the whole contribution of `b` on `a`: gravity plus
/// charge, or nothing when the two bodies coincide.
pub open spec fn pair_fx(a: Node, b: Node, cfg: SimConfig) -> int {
    if coincident(a, b) {
        0
    } else {
        grav_fx(a, b, cfg) + coulomb_fx(a, b, cfg)
    }
}

/// y component of the whole contribution of `b` on `a`.
pub open spec fn pair_fy(a: Node, b: Node, cfg: SimConfig) -> int {
    if coincident(a, b) {
        0
    } else {
        grav_fy(a, b, cfg) + coulomb_fy(a, b, cfg)
    }
}

/// x component of the net force on `a` from every body of `s`.
pub open spec fn net_fx(a: Node, s: Seq<Node>, cfg: SimConfig) -> int
    decreases s.len(),
{
    if s.len() == 0 {
        0
    } else {
        net_fx(a, s.drop_last(), cfg) + pair_fx(a, s.last(), cfg)
    }
}

/// y component of the net force on `a` from every body of `s`.
pub open spec fn net_fy(a: Node, s: Seq<Node>, cfg: SimConfig) -> int
    decreases s.len(),
{
    if s.len() == 0 {
        0
    } else {
        net_fy(a, s.drop_last(), cfg) + pair_fy(a, s.last(), cfg)
    }
}

/// Newton's third law on the gravity term taken in isolation: for a
/// non-coincident pair the two directed contributions have equal magnitude
/// and exactly opposite direction — each component is the other's negation.
pub proof fn lemma_gravity_newton_third(a: Node, b: Node, cfg: SimConfig)
    requires
        cfg.wf(),
        !coincident(a, b),
    ensures
        grav_fx(b, a, cfg) == -grav_fx(a, b, cfg),
        grav_fy(b, a, cfg) == -grav_fy(a, b, cfg),
        iabs(grav_fx(b, a, cfg)) == iabs(grav_fx(a, b, cfg)),
        iabs(grav_fy(b, a, cfg)) == iabs(grav_fy(a, b, cfg)),
{
    let dx = b.px - a.px;
    let dy = b.py - a.py;
    assert((-dx) * (-dx) == dx * dx && (-dy) * (-dy) == dy * dy) by (nonlinear_arith);
    assert(dist2(b, a) == dist2(a, b));
    let d = dist(a, b, cfg.d_min as int);
    assert(cfg.g * b.m * a.m == cfg.g * a.m * b.m) by (nonlinear_arith);
    assert(grav_scalar(b, a, cfg) == grav_scalar(a, b, cfg));
    let s = grav_scalar(a, b, cfg);
    assert(s * (-dx) == -(s * dx) && s * (-dy) == -(s * dy)) by (nonlinear_arith);
    lemma_tdiv_neg(s * dx, d);
    lemma_tdiv_neg(s * dy, d);
}

/// The soft-core clamp: when two bodies stand closer than `d_min`, the
/// distance the force law uses is exactly `d_min`, not the true separation.
pub proof fn lemma_distance_clamped(a: Node, b: Node, d_min: int)
    requires
        0 < d_min,
        dist2(a, b) < d_min * d_min,
    ensures
        dist(a, b, d_min) == d_min,
{
    let dx = b.px - a.px;
    let dy = b.py - a.py;
    assert(dx * dx >= 0 && dy * dy >= 0) by (nonlinear_arith);
    lemma_sqrt_le(dist2(a, b), d_min - 1);
}

/// The coincident-position guard: two bodies at the exact same coordinates
/// contribute zero mutual force — neither counts the other.
pub proof fn lemma_coincident_zero(a: Node, b: Node, cfg: SimConfig)
    requires
        coincident(a, b),
    ensures
        pair_fx(a, b, cfg) == 0,
        pair_fy(a, b, cfg) == 0,
        pair_fx(b, a, cfg) == 0,
        pair_fy(b, a, cfg) == 0,
{
}

/// Force contribution of `b` on `a`, exactly as the force law states it.
#[verifier::rlimit(100)]
pub fn pair_force(a: &Node, b: &Node, cfg: &SimConfig) -> (r: (i64, i64))
    requires
        a.wf(),
        b.wf(),
        cfg.wf(),
    ensures
        r.0 as int == pair_fx(*a, *b, *cfg),
        r.1 as int == pair_fy(*a, *b, *cfg),
        iabs(r.0 as int) <= PAIR_FORCE_MAX,
        iabs(r.1 as int) <= PAIR_FORCE_MAX,
{
    if a.px == b.px && a.py == b.py {
        return (0, 0);
    }
    let dx: i64 = b.px - a.px;
    let dy: i64 = b.py - a.py;
    let adx: u64 = abs64(dx);
    let ady: u64 = abs64(dy);
    proof {
        lemma_abs_mul(dx as int, dx as int);
        lemma_abs_mul(dy as int, dy as int);
        assert((dx as int) * (dx as int) >= 0 && (dy as int) * (dy as int) >= 0)
            by (nonlinear_arith);
        assert((adx as int) * (adx as int) + (ady as int) * (ady as int)
            <= 8_000_000_000_000_000_000) by (nonlinear_arith)
            requires
                0 <= adx as int <= 2_000_000_000,
                0 <= ady as int <= 2_000_000_000,
        ;
    }
    let d2: u64 = adx * adx + ady * ady;
    assert(d2 as int == dist2(*a, *b));
    let s: u64 = isqrt(d2);
    proof {
        assert((2_899_999_999int + 1) * (2_899_999_999int + 1) > 8_000_000_000_000_000_000int)
            by (nonlinear_arith);
        lemma_sqrt_le(d2 as int, 2_899_999_999);
    }
    let d: u64 = if s < cfg.d_min as u64 {
        cfg.d_min as u64
    } else {
        s
    };
    assert(d as int == dist(*a, *b, cfg.d_min as int));
    assert(d <= 2_900_000_000);
    proof {
        assert((d as int) * (d as int) <= 8_410_000_000_000_000_000) by (nonlinear_arith)
            requires
                0 <= d as int <= 2_900_000_000,
        ;
        assert((d as int) * (d as int) >= 1_000_000) by (nonlinear_arith)
            requires
                d as int >= 1_000,
        ;
    }
    let d2c: u64 = d * d;
    // gravity scalar
    proof {
        assert((cfg.g as int) * (a.m as int) <= 10_000_000_000) by (nonlinear_arith)
            requires
                0 <= cfg.g as int <= 100_000,
                0 <= a.m as int <= 100_000,
        ;
    }
    let gm: u64 = (cfg.g as u64) * (a.m as u64);
    proof {
        assert((gm as int) * (b.m as int) <= 1_000_000_000_000_000) by (nonlinear_arith)
            requires
                0 <= gm as int <= 10_000_000_000,
                0 <= b.m as int <= 100_000,
        ;
    }
    let gmm: u64 = gm * (b.m as u64);
    let fg: u64 = gmm / d2c;
    proof {
        lemma_div_bound(gmm as int, d2c as int, 1_000_000_000_000_000, 1_000_000);
        assert(fg as int == grav_scalar(*a, *b, *cfg));
        assert(fg <= 1_000_000_000);
    }
    // charge scalar
    let ac: u64 = abs64(a.c);
    let bc: u64 = abs64(b.c);
    proof {
        assert((cfg.k as int) * (ac as int) <= 10_000_000_000) by (nonlinear_arith)
            requires
                0 <= cfg.k as int <= 100_000,
                0 <= ac as int <= 100_000,
        ;
    }
    let km: u64 = (cfg.k as u64) * ac;
    proof {
        assert((km as int) * (bc as int) <= 1_000_000_000_000_000) by (nonlinear_arith)
            requires
                0 <= km as int <= 10_000_000_000,
                0 <= bc as int <= 100_000,
        ;
    }
    let kmm: u64 = km * bc;
    let fcm: u64 = kmm / d2c;
    proof {
        lemma_div_bound(kmm as int, d2c as int, 1_000_000_000_000_000, 1_000_000);
        assert(fcm <= 1_000_000_000);
    }
    let cs: i64 = if (a.c < 0) != (b.c < 0) {
        proof {
            assert((a.c as int) * (b.c as int) <= 0) by (nonlinear_arith)
                requires
                    (a.c < 0) != (b.c < 0),
            ;
            if (a.c as int) * (b.c as int) == 0 {
                lemma_abs_mul(a.c as int, b.c as int);
                assert((cfg.k as int) * iabs(a.c as int) * iabs(b.c as int) == 0)
                    by (nonlinear_arith)
                    requires
                        iabs(a.c as int) * iabs(b.c as int) == 0,
                ;
                lemma_div_of0(d2c as int);
            }
        }
        fcm as i64
    } else {
        proof {
            assert((a.c as int) * (b.c as int) >= 0) by (nonlinear_arith)
                requires
                    (a.c < 0) == (b.c < 0),
            ;
        }
        -(fcm as i64)
    };
    proof {
        assert((cfg.k as int) * iabs(a.c as int) * iabs(b.c as int)
            == (km as int) * (bc as int)) by (nonlinear_arith)
            requires
                km as int == (cfg.k as int) * iabs(a.c as int),
                bc as int == iabs(b.c as int),
        ;
        assert(cs as int == coulomb_scalar(*a, *b, *cfg));
    }
    // project both scalars on the unit direction toward `b`
    let d_i: i64 = d as i64;
    let fg_i: i64 = fg as i64;
    proof {
        lemma_sqrt_ge_component(dx as int, dy as int);
        lemma_sqrt_ge_component(dy as int, dx as int);
        assert((dy as int) * (dy as int) + (dx as int) * (dx as int) == dist2(*a, *b))
            by (nonlinear_arith)
            requires
                (dx as int) * (dx as int) + (dy as int) * (dy as int) == dist2(*a, *b),
        ;
        assert(iabs(dx as int) <= d as int);
        assert(iabs(dy as int) <= d as int);
        lemma_tdiv_abs((fg_i as int) * (dx as int), d as int);
        lemma_mdiv_le(fg_i as int, dx as int, d as int);
        lemma_tdiv_abs((fg_i as int) * (dy as int), d as int);
        lemma_mdiv_le(fg_i as int, dy as int, d as int);
        lemma_tdiv_abs((cs as int) * (dx as int), d as int);
        lemma_mdiv_le(cs as int, dx as int, d as int);
        lemma_tdiv_abs((cs as int) * (dy as int), d as int);
        lemma_mdiv_le(cs as int, dy as int, d as int);
    }
    let gx: i64 = mul_div(fg_i, dx, d_i);
    let gy: i64 = mul_div(fg_i, dy, d_i);
    let cx: i64 = mul_div(cs, dx, d_i);
    let cy: i64 = mul_div(cs, dy, d_i);
    let fx: i64 = gx + cx;
    let fy: i64 = gy + cy;
    (fx, fy)
}

/// Net force on the body `p`, summed over every body of the snapshot — the
/// unit of work the parallel stage fans out, one call per particle. Pure in
/// the snapshot.
pub fn compute_force_for(p: &Node, nodes: &Vec<Node>, cfg: &SimConfig) -> (r: (i64, i64))
    requires
        p.wf(),
        all_wf(nodes@),
        cfg.wf(),
        nodes.len() <= MAX_CAP,
    ensures
        r.0 as int == net_fx(*p, nodes@, *cfg),
        r.1 as int == net_fy(*p, nodes@, *cfg),
        iabs(r.0 as int) <= nodes@.len() * PAIR_FORCE_MAX,
        iabs(r.1 as int) <= nodes@.len() * PAIR_FORCE_MAX,
{
    let mut fx: i64 = 0;
    let mut fy: i64 = 0;
    let mut j: usize = 0;
    while j < nodes.len()
        invariant
            j <= nodes.len(),
            nodes.len() <= MAX_CAP,
            p.wf(),
            all_wf(nodes@),
            cfg.wf(),
            fx as int == net_fx(*p, nodes@.take(j as int), *cfg),
            fy as int == net_fy(*p, nodes@.take(j as int), *cfg),
            iabs(fx as int) <= j * PAIR_FORCE_MAX,
            iabs(fy as int) <= j * PAIR_FORCE_MAX,
        decreases nodes.len() - j,
    {
        let q = &nodes[j];
        let pf = pair_force(p, q, cfg);
        proof {
            assert(nodes@.take(j as int + 1).drop_last() =~= nodes@.take(j as int));
            assert(nodes@.take(j as int + 1).last() == nodes@[j as int]);
        }
        fx = fx + pf.0;
        fy = fy + pf.1;
        j += 1;
    }
    proof {
        assert(nodes@.take(nodes@.len() as int) =~= nodes@);
    }
    (fx, fy)
}

/// Net force for every body of the snapshot, index-aligned with it. This is
/// the fan-out/fan-in stage: each entry is an independent call of
/// [`compute_force_for`] on the shared read-only snapshot, so entries may
/// be computed concurrently; the results are collected in snapshot order.
pub fn compute_forces(nodes: &Vec<Node>, cfg: &SimConfig) -> (r: Vec<(i64, i64)>)
    requires
        all_wf(nodes@),
        cfg.wf(),
        nodes.len() <= MAX_CAP,
    ensures
        r.len() == nodes.len(),
        forall|i: int| 0 <= i < nodes@.len() ==> {
            &&& (#[trigger] r@[i]).0 as int == net_fx(nodes@[i], nodes@, *cfg)
            &&& r@[i].1 as int == net_fy(nodes@[i], nodes@, *cfg)
            &&& iabs(r@[i].0 as int) <= nodes@.len() * PAIR_FORCE_MAX
            &&& iabs(r@[i].1 as int) <= nodes@.len() * PAIR_FORCE_MAX
        },
{
    let mut r: Vec<(i64, i64)> = Vec::new();
    let mut i: usize = 0;
    while i < nodes.len()
        invariant
            i <= nodes.len(),
            nodes.len() <= MAX_CAP,
            all_wf(nodes@),
            cfg.wf(),
            r.len() == i,
            forall|t: int| 0 <= t < i ==> {
                &&& (#[trigger] r@[t]).0 as int == net_fx(nodes@[t], nodes@, *cfg)
                &&& r@[t].1 as int == net_fy(nodes@[t], nodes@, *cfg)
                &&& iabs(r@[t].0 as int) <= nodes@.len() * PAIR_FORCE_MAX
                &&& iabs(r@[t].1 as int) <= nodes@.len() * PAIR_FORCE_MAX
            },
        decreases nodes.len() - i,
    {
        let p = nodes[i];
        let f = compute_force_for(&p, nodes, cfg);
        r.push(f);
        i += 1;
    }
    r
}

} // verus!
