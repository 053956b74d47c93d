use particle_sim::config::SimConfig;
use particle_sim::forces::{compute_force_for, compute_forces, pair_force};
use particle_sim::math::{abs64, isqrt, mul_div};
use particle_sim::node::Node;

fn default_cfg() -> SimConfig {
    SimConfig::default()
}

#[test]
fn isqrt_small_values() {
    assert_eq!(isqrt(0), 0);
    assert_eq!(isqrt(1), 1);
    assert_eq!(isqrt(3), 1);
    assert_eq!(isqrt(4), 2);
    assert_eq!(isqrt(99), 9);
    assert_eq!(isqrt(100), 10);
    assert_eq!(isqrt(100_000_000), 10_000);
}

#[test]
fn isqrt_large_values() {
    assert_eq!(isqrt(u64::MAX), 4_294_967_295);
    assert_eq!(isqrt(8_000_000_000_000_000_000), 2_828_427_124);
    let s = isqrt(7_777_777_777_777_777_777);
    assert!(s * s <= 7_777_777_777_777_777_777);
    assert!((s + 1) * (s + 1) > 7_777_777_777_777_777_777);
}

#[test]
fn abs_and_mul_div() {
    assert_eq!(abs64(-5), 5);
    assert_eq!(abs64(5), 5);
    assert_eq!(abs64(i64::MIN), 9_223_372_036_854_775_808u64);
    // rounds toward zero, like `/` on machine integers
    assert_eq!(mul_div(7, 3, 2), 10);
    assert_eq!(mul_div(-7, 3, 2), -10);
    assert_eq!(mul_div(7, -3, 2), -10);
    assert_eq!(mul_div(-7, -3, 2), 10);
    assert_eq!(mul_div(0, -3, 2), 0);
}

/// Two bodies with masses 10, charges +5 and -5, ten units apart: gravity
/// is 10.0 toward the other, the opposite-signed charge term adds 2.5, so
/// the net force is 12.5 along +x on the first body and 12.5 along -x on
/// the second.
#[test]
fn two_body_reference_values() {
    let cfg = default_cfg();
    let a = Node::new(10_000, 5_000, 0, 0, 0, 0);
    let b = Node::new(10_000, -5_000, 10_000, 0, 0, 0);
    let fab = pair_force(&a, &b, &cfg);
    assert_eq!(fab, (12_500, 0));
    let fba = pair_force(&b, &a, &cfg);
    assert_eq!(fba, (-12_500, 0));
    // through the net-force stage, the self pair contributes nothing
    let nodes = vec![a, b];
    assert_eq!(compute_force_for(&a, &nodes, &cfg), (12_500, 0));
    assert_eq!(compute_force_for(&b, &nodes, &cfg), (-12_500, 0));
    let all = compute_forces(&nodes, &cfg);
    assert_eq!(all, vec![(12_500, 0), (-12_500, 0)]);
}

/// Gravity in isolation obeys Newton's third law: equal magnitude, exactly
/// opposite direction, also on a diagonal pair.
#[test]
fn newton_third_law_on_gravity() {
    let cfg = default_cfg();
    // zero charges isolate the gravity term
    let a = Node::new(10_000, 0, -3_000, 2_000, 0, 0);
    let b = Node::new(30_000, 0, 5_000, -9_000, 0, 0);
    let fab = pair_force(&a, &b, &cfg);
    let fba = pair_force(&b, &a, &cfg);
    assert_eq!(fab.0, -fba.0);
    assert_eq!(fab.1, -fba.1);
    assert!(fab.0 != 0 || fab.1 != 0);
}

/// Closer than the clamp the force law uses exactly `d_min`: two bodies
/// two units apart behave as if four units apart.
#[test]
fn distance_clamp_applies() {
    let cfg = default_cfg();
    let a = Node::new(10_000, 0, 0, 0, 0, 0);
    let b = Node::new(10_000, 0, 2_000, 0, 0, 0);
    // d clamps to 4000: fg = 10_000 * 10_000 * 10_000 / 16_000_000 = 62_500,
    // projected on dx = 2000 over d = 4000: 62_500 * 2000 / 4000 = 31_250.
    assert_eq!(pair_force(&a, &b, &cfg), (31_250, 0));
    // just beyond the clamp the true distance is used
    let c = Node::new(10_000, 0, 4_000, 0, 0, 0);
    // d = 4000 exactly: fg = 62_500 projected fully: 62_500
    assert_eq!(pair_force(&a, &c, &cfg), (62_500, 0));
    let d = Node::new(10_000, 0, 5_000, 0, 0, 0);
    // d = 5000: fg = 1e12 / 25e6 = 40_000
    assert_eq!(pair_force(&a, &d, &cfg), (40_000, 0));
}

/// Coincident bodies contribute zero mutual force in both directions.
#[test]
fn coincident_pair_is_skipped() {
    let cfg = default_cfg();
    let a = Node::new(10_000, 5_000, 7_000, -2_000, 0, 0);
    let b = Node::new(30_000, -9_000, 7_000, -2_000, 0, 0);
    assert_eq!(pair_force(&a, &b, &cfg), (0, 0));
    assert_eq!(pair_force(&b, &a, &cfg), (0, 0));
    // and the net force over a set of three counts only the distinct body
    let c = Node::new(10_000, 0, 17_000, -2_000, 0, 0);
    let nodes = vec![a, b, c];
    let with_twin = compute_force_for(&a, &nodes, &cfg);
    let alone = compute_force_for(&a, &vec![a, c], &cfg);
    assert_eq!(with_twin, alone);
}

/// Like-signed charges repel: with light masses the charge term wins and
/// the net force points away from the other body.
#[test]
fn like_charges_repel() {
    let cfg = default_cfg();
    let a = Node::new(1_000, 5_000, 0, 0, 0, 0);
    let b = Node::new(1_000, 5_000, 10_000, 0, 0, 0);
    // gravity: 10_000 * 1000 * 1000 / 1e8 = 100; charge: -(10_000 * 5000 *
    // 5000 / 1e8) = -2500; net -2400 along +x, i.e. away from b.
    assert_eq!(pair_force(&a, &b, &cfg), (-2_400, 0));
    assert_eq!(pair_force(&b, &a, &cfg), (2_400, 0));
}

/// An empty snapshot exerts no force.
#[test]
fn empty_snapshot_zero_force() {
    let cfg = default_cfg();
    let a = Node::new(10_000, 5_000, 0, 0, 0, 0);
    let nodes: Vec<Node> = Vec::new();
    assert_eq!(compute_force_for(&a, &nodes, &cfg), (0, 0));
    assert_eq!(compute_forces(&nodes, &cfg).len(), 0);
}
