use vstd::prelude::*;

verus! {

use crate::config::{MAX_CAP, SCALE, SimConfig};
use crate::math::{isqrt, lemma_sqrt_le, max_i, sqrt_floor};
use crate::node::{Node, all_wf, emit_node};
use vstd::arithmetic::div_mod::{lemma_div_nonincreasing, lemma_mod_bound};

/// x position the first emitted body of a pair starts from (`-200` units).
pub const EMIT_X_A: i64 = -200_000;

/// y position the first emitted body of a pair starts from (`32` units).
pub const EMIT_Y_A: i64 = 32_000;

/// x position the second emitted body of a pair starts from (`200` units).
pub const EMIT_X_B: i64 = 200_000;

/// y position the second emitted body of a pair starts from (`-32` units).
pub const EMIT_Y_B: i64 = -32_000;

/// Velocity components of the first emitted body (`10` units each).
pub const EMIT_V_A: i64 = 10_000;

/// Velocity components of the second emitted body (`-10` units each).
pub const EMIT_V_B: i64 = -10_000;

/// Mass of every emitted body (`20` units).
pub const EMIT_MASS: i64 = 20_000;

/// Charge of the first emitted body (`-10` units).
pub const EMIT_CHARGE_A: i64 = -10_000;

/// Charge of the second emitted body (`10` units).
pub const EMIT_CHARGE_B: i64 = 10_000;

/// Sub-unit jitter added to the emission positions, one offset per
/// coordinate, each in `[0, SCALE)`.
#[derive(Clone, Copy, PartialEq, Eq, Structural)]
pub struct SpawnJitter {
    /// Offset on the first body's x position.
    pub x0: i64,
    /// Offset on the first body's y position.
    pub y0: i64,
    /// Offset on the second body's x position.
    pub x1: i64,
    /// Offset on the second body's y position.
    pub y1: i64,
}

impl SpawnJitter {
    /// Each offset is less than one simulation unit.
    pub open spec fn wf(self) -> bool {
        &&& 0 <= self.x0 < SCALE
        &&& 0 <= self.y0 < SCALE
        &&& 0 <= self.x1 < SCALE
        &&& 0 <= self.y1 < SCALE
    }
}

/// The first body of an emitted pair: off-center left, positive velocity,
/// negative charge.
pub open spec fn spawn_node_a(jit: SpawnJitter) -> Node {
    Node {
        m: EMIT_MASS,
        c: EMIT_CHARGE_A,
        px: (EMIT_X_A + jit.x0) as i64,
        py: (EMIT_Y_A + jit.y0) as i64,
        vx: EMIT_V_A,
        vy: EMIT_V_A,
        ax: 0,
        ay: 0,
        fx: 0,
        fy: 0,
    }
}

/// The second body of an emitted pair: the mirror of the first — off-center
/// right, opposite-signed velocity and opposite-signed charge.
pub open spec fn spawn_node_b(jit: SpawnJitter) -> Node {
    Node {
        m: EMIT_MASS,
        c: EMIT_CHARGE_B,
        px: (EMIT_X_B + jit.x1) as i64,
        py: (EMIT_Y_B + jit.y1) as i64,
        vx: EMIT_V_B,
        vy: EMIT_V_B,
        ax: 0,
        ay: 0,
        fx: 0,
        fy: 0,
    }
}

/// What one spawner call appends to a set of `len` bodies under cap `cap`:
/// nothing at or above the cap, and otherwise the symmetric pair — or only
/// its first body, where one slot is left.
pub open spec fn appended(len: int, cap: int, jit: SpawnJitter) -> Seq<Node> {
    if len >= cap {
        Seq::empty()
    } else if len + 1 >= cap {
        seq![spawn_node_a(jit)]
    } else {
        seq![spawn_node_a(jit), spawn_node_b(jit)]
    }
}

/// At or above the cap the spawner appends nothing: it is a no-op.
pub proof fn lemma_spawner_noop_at_cap(len: int, cap: int, jit: SpawnJitter)
    requires
        len >= cap,
    ensures
        appended(len, cap, jit) == Seq::<Node>::empty(),
{
}

/// The spawner: appends the fixed symmetric pair of bodies, jittered by
/// less than one unit, while the population is under the cap; a no-op once
/// the cap is reached. The appended bodies never take the set beyond the
/// cap.
pub fn spawn(nodes: &mut Vec<Node>, cfg: &SimConfig, jit: &SpawnJitter)
    requires
        cfg.wf(),
        jit.wf(),
    ensures
        final(nodes)@ == old(nodes)@ + appended(
            old(nodes).len() as int,
            cfg.cap as int,
            *jit,
        ),
        final(nodes).len() as int <= max_i(old(nodes).len() as int, cfg.cap as int),
        all_wf(old(nodes)@) ==> all_wf(final(nodes)@),
{
    let ghost pre = nodes@;
    if nodes.len() < cfg.cap {
        emit_node(nodes, EMIT_X_A + jit.x0, EMIT_Y_A + jit.y0, EMIT_V_A, EMIT_V_A, EMIT_MASS,
            EMIT_CHARGE_A);
        if nodes.len() < cfg.cap {
            emit_node(nodes, EMIT_X_B + jit.x1, EMIT_Y_B + jit.y1, EMIT_V_B, EMIT_V_B, EMIT_MASS,
                EMIT_CHARGE_B);
            proof {
                assert(nodes@ =~= pre + appended(pre.len() as int, cfg.cap as int, *jit));
            }
        } else {
            proof {
                assert(nodes@ =~= pre + appended(pre.len() as int, cfg.cap as int, *jit));
            }
        }
    } else {
        proof {
            assert(nodes@ =~= pre + appended(pre.len() as int, cfg.cap as int, *jit));
        }
    }
    proof {
        if all_wf(pre) {
            assert(spawn_node_a(*jit).wf());
            assert(spawn_node_b(*jit).wf());
            assert forall|i: int| 0 <= i < nodes@.len() implies (#[trigger] nodes@[i]).wf() by {
                if i < pre.len() {
                    assert(pre[i].wf());
                }
            }
        }
    }
}

/// Relies on rand::random_range (thread-local generator): a value drawn
/// from the given nonempty range, here sub-unit jitter in `[0, SCALE)`.
#[verifier::external_body]
pub(crate) fn random_jitter() -> (r: i64)
    ensures
        0 <= r < SCALE,
{
    rand::random_range(0..SCALE)
}

/// The spawner fed with fresh random jitter, as the frame loop calls it.
/// Whatever the jitter came out as, the appended bodies follow the fixed
/// emission pattern for some sub-unit offsets.
pub fn spawn_random(nodes: &mut Vec<Node>, cfg: &SimConfig)
    requires
        cfg.wf(),
    ensures
        exists|jit: SpawnJitter|
            #![auto]
            jit.wf() && final(nodes)@ == old(nodes)@ + appended(
                old(nodes).len() as int,
                cfg.cap as int,
                jit,
            ),
        final(nodes).len() as int <= max_i(old(nodes).len() as int, cfg.cap as int),
        all_wf(old(nodes)@) ==> all_wf(final(nodes)@),
{
    let jit = SpawnJitter {
        x0: random_jitter(),
        y0: random_jitter(),
        x1: random_jitter(),
        y1: random_jitter(),
    };
    spawn(nodes, cfg, &jit);
    proof {
        assert(jit.wf() && nodes@ == old(nodes)@ + appended(
            old(nodes).len() as int,
            cfg.cap as int,
            jit,
        ));
    }
}

/// Grid column count of the initial cluster layout: the square root of the
/// group size, rounded down.
pub open spec fn init_grid_cols(half: int) -> int {
    sqrt_floor(half)
}

/// A body of the first initial cluster: placed on a jittered grid below and
/// left of the origin, moving left and slightly down the grid, with
/// positive charge.
pub open spec fn init_group_a(q: Node, k: int, half: int) -> bool {
    let s = init_grid_cols(half);
    &&& q.m == 10_000
    &&& q.c == 5_000
    &&& q.vy == 3_000
    &&& -32_000 <= q.vx <= -31_751
    &&& -((k % s) * 1000) - 999 <= q.px <= -((k % s) * 1000)
    &&& -((k / s) * 1000) - 200_999 <= q.py <= -((k / s) * 1000) - 200_000
    &&& q.ax == 0 && q.ay == 0 && q.fx == 0 && q.fy == 0
}

/// A body of the second initial cluster: the point mirror of the first
/// cluster — above and right of the origin, opposite velocity, negative
/// charge.
pub open spec fn init_group_b(q: Node, k: int, half: int) -> bool {
    let s = init_grid_cols(half);
    &&& q.m == 10_000
    &&& q.c == -5_000
    &&& q.vy == -3_000
    &&& 31_751 <= q.vx <= 32_000
    &&& (k % s) * 1000 <= q.px <= (k % s) * 1000 + 999
    &&& (k / s) * 1000 + 200_000 <= q.py <= (k / s) * 1000 + 200_999
    &&& q.ax == 0 && q.ay == 0 && q.fx == 0 && q.fy == 0
}

/// Seeds the set with two symmetric clusters of `n / 2` bodies each, laid
/// out on a jittered square grid, streaming toward each other: the first
/// cluster carries positive charge, the second negative, with
/// opposite-signed initial velocities.
pub fn init_nodes_vec(v: &mut Vec<Node>, n: u32)
    requires
        old(v).len() + n as int <= MAX_CAP as int,
    ensures
        final(v).len() == old(v).len() + 2 * ((n as int) / 2),
        forall|k: int|
            0 <= k < (n as int) / 2 ==> init_group_a(
                #[trigger] final(v)@[old(v)@.len() + k],
                k,
                (n as int) / 2,
            ),
        forall|k: int|
            0 <= k < (n as int) / 2 ==> init_group_b(
                #[trigger] final(v)@[old(v)@.len() + (n as int) / 2 + k],
                k,
                (n as int) / 2,
            ),
        forall|k: int| 0 <= k < old(v)@.len() ==> final(v)@[k] == old(v)@[k],
        all_wf(old(v)@) ==> all_wf(final(v)@),
{
    let ghost pre = v@;
    let half: usize = (n as usize) / 2;
    if half == 0 {
        return ;
    }
    let sqrn2: u64 = isqrt(half as u64);
    proof {
        lemma_grid_cols_bounds(half as int);
    }
    let mut i: usize = 0;
    while i < half
        invariant
            1 <= half <= 500_000,
            pre.len() + 2 * half <= MAX_CAP as int,
            is_sqrt_bounds(half as int, sqrn2 as int),
            i <= half,
            v@.len() == pre.len() + i,
            forall|k: int| 0 <= k < pre.len() ==> v@[k] == pre[k],
            forall|k: int|
                0 <= k < i ==> init_group_a(#[trigger] v@[pre.len() + k], k, half as int),
            forall|k: int|
                0 <= k < i ==> (#[trigger] v@[pre.len() + k]).wf(),
        decreases half - i,
    {
        let jx = random_jitter();
        let jy = random_jitter();
        let jv = random_jitter();
        let gx: u64 = (i as u64) % sqrn2;
        let gy: u64 = (i as u64) / sqrn2;
        proof {
            lemma_mod_bound(i as int, sqrn2 as int);
            lemma_div_nonincreasing(i as int, sqrn2 as int);
        }
        let xm: i64 = (gx as i64) * 1000 + jx;
        let ym: i64 = (gy as i64) * 1000 + jy;
        let vq: i64 = ((jv as u64) / 4) as i64;
        emit_node(v, -xm, -ym - 200_000, -32_000 + vq, 3_000, 10_000, 5_000);
        i += 1;
    }
    let ghost mid = v@;
    let mut i2: usize = 0;
    while i2 < half
        invariant
            1 <= half <= 500_000,
            pre.len() + 2 * half <= MAX_CAP as int,
            is_sqrt_bounds(half as int, sqrn2 as int),
            i2 <= half,
            mid.len() == pre.len() + half,
            v@.len() == mid.len() + i2,
            forall|k: int| 0 <= k < mid.len() ==> v@[k] == mid[k],
            forall|k: int|
                0 <= k < i2 ==> init_group_b(#[trigger] v@[mid.len() + k], k, half as int),
            forall|k: int|
                0 <= k < i2 ==> (#[trigger] v@[mid.len() + k]).wf(),
        decreases half - i2,
    {
        let jx = random_jitter();
        let jy = random_jitter();
        let jv = random_jitter();
        let gx: u64 = (i2 as u64) % sqrn2;
        let gy: u64 = (i2 as u64) / sqrn2;
        proof {
            lemma_mod_bound(i2 as int, sqrn2 as int);
            lemma_div_nonincreasing(i2 as int, sqrn2 as int);
        }
        let xm: i64 = (gx as i64) * 1000 + jx;
        let ym: i64 = (gy as i64) * 1000 + jy;
        let vq: i64 = ((jv as u64) / 4) as i64;
        emit_node(v, xm, ym + 200_000, 32_000 - vq, -3_000, 10_000, -5_000);
        i2 += 1;
    }
    proof {
        assert(half as int == (n as int) / 2);
        assert forall|k: int| 0 <= k < pre.len() implies #[trigger] v@[k] == pre[k] by {
            assert(v@[k] == mid[k]);
        }
        assert forall|k: int|
            0 <= k < (n as int) / 2 implies init_group_a(
            #[trigger] v@[pre.len() + k],
            k,
            (n as int) / 2,
        ) by {
            assert(v@[pre.len() + k] == mid[pre.len() + k]);
            assert(init_group_a(mid[pre.len() + k], k, half as int));
        }
        assert forall|k: int|
            0 <= k < (n as int) / 2 implies init_group_b(
            #[trigger] v@[pre.len() + (n as int) / 2 + k],
            k,
            (n as int) / 2,
        ) by {
            assert(init_group_b(v@[mid.len() + k], k, half as int));
        }
        if all_wf(pre) {
            assert forall|k: int| 0 <= k < v@.len() implies (#[trigger] v@[k]).wf() by {
                if k < pre.len() {
                    assert(v@[k] == mid[k]);
                    assert(mid[k] == pre[k]);
                    assert(pre[k].wf());
                } else if k < mid.len() {
                    assert(v@[k] == mid[k]);
                    assert((mid[pre.len() + (k - pre.len())]).wf());
                } else {
                    assert((v@[mid.len() + (k - mid.len())]).wf());
                }
            }
        }
    }
}

/// The grid column count of a group of `half` bodies is its rounded-down
/// square root, at least one and at most `707` for any admissible group.
pub open spec fn is_sqrt_bounds(half: int, s: int) -> bool {
    &&& s == init_grid_cols(half)
    &&& 1 <= s <= 707
}

/// The square root of an admissible group size lies between one and `707`.
pub proof fn lemma_grid_cols_bounds(half: int)
    requires
        1 <= half <= 500_000,
    ensures
        is_sqrt_bounds(half, init_grid_cols(half)),
{
    crate::math::lemma_sqrt_floor_exists(half);
    let s = sqrt_floor(half);
    if s == 0 {
        assert(half < (0int + 1) * (0int + 1));
        assert(false);
    }
    assert((707int + 1) * (707int + 1) > 500_000int) by (nonlinear_arith);
    lemma_sqrt_le(half, 707);
}

} // verus!
