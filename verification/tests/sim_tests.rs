use particle_sim::config::{DEFAULT_CAP, DEFAULT_D_MIN, DEFAULT_DRAG, DEFAULT_DT, DEFAULT_G,
    DEFAULT_K, SCALE, SimConfig};
use particle_sim::integrate::{integrate, integrate_node, update_nodes_vec};
use particle_sim::node::{Node, emit_node};
use particle_sim::sim::Simulation;
use particle_sim::spawn::{SpawnJitter, init_nodes_vec, spawn, spawn_random};

fn default_cfg() -> SimConfig {
    SimConfig::default()
}

fn small_cfg(cap: usize) -> SimConfig {
    let mut cfg = SimConfig::default();
    cfg.cap = cap;
    cfg
}

fn zero_jitter() -> SpawnJitter {
    SpawnJitter { x0: 0, y0: 0, x1: 0, y1: 0 }
}

#[test]
fn default_config_matches_documented_constants() {
    let cfg = default_cfg();
    assert_eq!(cfg.g, DEFAULT_G);
    assert_eq!(cfg.k, DEFAULT_K);
    assert_eq!(cfg.d_min, DEFAULT_D_MIN);
    assert_eq!(cfg.dt, DEFAULT_DT);
    assert_eq!(cfg.drag, DEFAULT_DRAG);
    assert_eq!(cfg.cap, DEFAULT_CAP);
    assert_eq!(SCALE, 1000);
}

#[test]
fn node_accessors() {
    let n = Node::new(10_000, -5_000, 7_000, -2_000, 1, 2);
    assert_eq!(n.get_position_tuple(), (7_000, -2_000));
    assert_eq!(n.get_diameter(), SCALE);
    assert!(!n.is_positive_charge());
    let p = Node::new(10_000, 0, 0, 0, 0, 0);
    assert!(p.is_positive_charge());
}

#[test]
fn emit_node_appends() {
    let mut v: Vec<Node> = Vec::new();
    emit_node(&mut v, 1, 2, 3, 4, 5, 6);
    assert_eq!(v.len(), 1);
    let n = v[0];
    assert_eq!((n.px, n.py, n.vx, n.vy, n.m, n.c), (1, 2, 3, 4, 5, 6));
    assert_eq!((n.ax, n.ay, n.fx, n.fy), (0, 0, 0, 0));
}

/// Euler integration is deterministic and exact: for fixed force, mass,
/// velocity, position and timestep, the post-step state is the closed-form
/// update, down to the fixed-point rounding.
#[test]
fn integration_closed_form() {
    let cfg = default_cfg();
    let p = Node::new(10_000, 0, 2_000, 3_000, 500, -500);
    let q = integrate_node(&p, 12_500, -12_500, &cfg);
    // acceleration: 12_500 * 1000 / 10_000 = 1250 (1.25 units)
    assert_eq!((q.ax, q.ay), (1_250, -1_250));
    // velocity: 500 + 1250 * 10 / 1000 = 512 (truncated from 512.5)
    assert_eq!((q.vx, q.vy), (512, -512));
    // position: 2000 + 512 * 10 / 1000 = 2005 (truncated)
    assert_eq!((q.px, q.py), (2_005, 2_995));
    // force is stored, mass and charge untouched
    assert_eq!((q.fx, q.fy), (12_500, -12_500));
    assert_eq!((q.m, q.c), (10_000, 0));
    // the identical call gives the identical state: no hidden input
    let q2 = integrate_node(&p, 12_500, -12_500, &cfg);
    assert_eq!(q, q2);
}

#[test]
fn integrate_whole_set_in_index_order() {
    let cfg = default_cfg();
    let a = Node::new(10_000, 5_000, 0, 0, 0, 0);
    let b = Node::new(10_000, -5_000, 10_000, 0, 0, 0);
    let mut nodes = vec![a, b];
    let forces = vec![(12_500i64, 0i64), (-12_500i64, 0i64)];
    integrate(&mut nodes, &forces, &cfg);
    assert_eq!(nodes.len(), 2);
    assert_eq!((nodes[0].fx, nodes[0].ax, nodes[0].vx), (12_500, 1_250, 12));
    // dp = 12 * 10 / 1000 truncates to zero on the first step
    assert_eq!(nodes[0].px, 0);
    assert_eq!((nodes[1].fx, nodes[1].ax, nodes[1].vx), (-12_500, -1_250, -12));
    assert_eq!(nodes[1].px, 10_000);
}

/// A drag below one shrinks the updated velocity.
#[test]
fn drag_damps_velocity() {
    let mut cfg = default_cfg();
    cfg.drag = 900;
    let p = Node::new(10_000, 0, 0, 0, 1_000, -1_000);
    let q = integrate_node(&p, 0, 0, &cfg);
    assert_eq!((q.vx, q.vy), (900, -900));
}

#[test]
fn update_nodes_vec_matches_force_then_integrate() {
    let cfg = default_cfg();
    let a = Node::new(10_000, 5_000, 0, 0, 0, 0);
    let b = Node::new(10_000, -5_000, 10_000, 0, 0, 0);
    let mut nodes = vec![a, b];
    update_nodes_vec(&mut nodes, &cfg);
    assert_eq!((nodes[0].fx, nodes[0].fy), (12_500, 0));
    assert_eq!((nodes[1].fx, nodes[1].fy), (-12_500, 0));
    assert_eq!(nodes[0].vx, 12);
    assert_eq!(nodes[1].vx, -12);
}

/// The spawner appends the fixed symmetric pair while under the cap, one
/// body when one slot is left, and nothing at the cap.
#[test]
fn spawn_policy_under_cap() {
    let cfg = small_cfg(3);
    let jit = zero_jitter();
    let mut v: Vec<Node> = Vec::new();
    spawn(&mut v, &cfg, &jit);
    assert_eq!(v.len(), 2);
    assert_eq!((v[0].px, v[0].py), (-200_000, 32_000));
    assert_eq!((v[0].vx, v[0].vy), (10_000, 10_000));
    assert_eq!((v[0].m, v[0].c), (20_000, -10_000));
    assert_eq!((v[1].px, v[1].py), (200_000, -32_000));
    assert_eq!((v[1].vx, v[1].vy), (-10_000, -10_000));
    assert_eq!((v[1].m, v[1].c), (20_000, 10_000));
    // one slot left: only the first body of the pair fits
    spawn(&mut v, &cfg, &jit);
    assert_eq!(v.len(), 3);
    assert_eq!(v[2].c, -10_000);
    // at the cap: a no-op
    spawn(&mut v, &cfg, &jit);
    assert_eq!(v.len(), 3);
}

#[test]
fn spawn_jitter_stays_under_one_unit() {
    let cfg = default_cfg();
    let jit = SpawnJitter { x0: 999, y0: 1, x1: 500, y1: 0 };
    let mut v: Vec<Node> = Vec::new();
    spawn(&mut v, &cfg, &jit);
    assert_eq!((v[0].px, v[0].py), (-199_001, 32_001));
    assert_eq!((v[1].px, v[1].py), (200_500, -32_000));
}

/// The random-jitter spawner follows the same pattern: fixed charge, mass
/// and velocity, position within one unit of the emission point.
#[test]
fn spawn_random_within_emission_cell() {
    let cfg = default_cfg();
    let mut v: Vec<Node> = Vec::new();
    spawn_random(&mut v, &cfg);
    assert_eq!(v.len(), 2);
    assert!((-200_000..=-199_001).contains(&v[0].px));
    assert!((32_000..=32_999).contains(&v[0].py));
    assert_eq!((v[0].m, v[0].c), (20_000, -10_000));
    assert!((200_000..=200_999).contains(&v[1].px));
    assert!((-32_000..=-31_001).contains(&v[1].py));
    assert_eq!((v[1].m, v[1].c), (20_000, 10_000));
}

/// The population never exceeds the cap, however many frames run, and the
/// spawner is a no-op once the cap is reached.
#[test]
fn population_cap_holds() {
    let cfg = small_cfg(5);
    let mut sim = Simulation::new(cfg);
    for _ in 0..10 {
        assert!(sim.state_in_bounds());
        sim.step_random();
        assert!(sim.nodes.len() <= 5);
    }
    assert_eq!(sim.nodes.len(), 5);
    assert_eq!(sim.frames, 10);
}

/// From an empty set with cap 4, two frames leave exactly four bodies, the
/// two groups carrying opposite-signed charge and velocity as the spawn
/// policy fixes them.
#[test]
fn two_steps_fill_cap_four() {
    let cfg = small_cfg(4);
    let mut sim = Simulation::new(cfg);
    let jit = zero_jitter();
    sim.step(&jit);
    assert_eq!(sim.nodes.len(), 2);
    sim.step(&jit);
    assert_eq!(sim.nodes.len(), 4);
    assert_eq!(sim.frames, 2);
    for k in [0usize, 2] {
        assert_eq!(sim.nodes[k].c, -10_000);
        assert!(sim.nodes[k].vx > 0 && sim.nodes[k].vy > 0);
        assert!(sim.nodes[k].px < 0);
    }
    for k in [1usize, 3] {
        assert_eq!(sim.nodes[k].c, 10_000);
        assert!(sim.nodes[k].vx < 0 && sim.nodes[k].vy < 0);
        assert!(sim.nodes[k].px > 0);
    }
}

/// A fixed jitter makes a whole frame reproducible end to end.
#[test]
fn step_is_deterministic_for_fixed_jitter() {
    let cfg = small_cfg(6);
    let jit = SpawnJitter { x0: 250, y0: 750, x1: 125, y1: 375 };
    let mut sim1 = Simulation::new(cfg);
    let mut sim2 = Simulation::new(cfg);
    for _ in 0..3 {
        sim1.step(&jit);
        sim2.step(&jit);
    }
    assert_eq!(sim1.nodes, sim2.nodes);
    assert_eq!(sim1.frames, sim2.frames);
}

/// The initial cluster seeding: two groups of `n / 2`, on a jittered grid,
/// opposite charges and velocities.
#[test]
fn init_nodes_vec_two_clusters() {
    let mut v: Vec<Node> = Vec::new();
    init_nodes_vec(&mut v, 8);
    assert_eq!(v.len(), 8);
    // first cluster: below-left, positive charge, moving left and down the grid
    for k in 0..4usize {
        let n = v[k];
        assert_eq!((n.m, n.c, n.vy), (10_000, 5_000, 3_000));
        assert!((-32_000..=-31_751).contains(&n.vx));
        let gx = (k as i64) % 2;
        let gy = (k as i64) / 2;
        assert!((-gx * 1000 - 999..=-gx * 1000).contains(&n.px));
        assert!((-gy * 1000 - 200_999..=-gy * 1000 - 200_000).contains(&n.py));
    }
    // second cluster: the mirror
    for k in 0..4usize {
        let n = v[4 + k];
        assert_eq!((n.m, n.c, n.vy), (10_000, -5_000, -3_000));
        assert!((31_751..=32_000).contains(&n.vx));
        let gx = (k as i64) % 2;
        let gy = (k as i64) / 2;
        assert!((gx * 1000..=gx * 1000 + 999).contains(&n.px));
        assert!((gy * 1000 + 200_000..=gy * 1000 + 200_999).contains(&n.py));
    }
}

#[test]
fn init_nodes_vec_odd_and_tiny_counts() {
    let mut v: Vec<Node> = Vec::new();
    init_nodes_vec(&mut v, 0);
    assert_eq!(v.len(), 0);
    init_nodes_vec(&mut v, 1);
    assert_eq!(v.len(), 0);
    init_nodes_vec(&mut v, 5);
    assert_eq!(v.len(), 4);
}

/// A body out of the engine's bounds is reported, so a caller can stop
/// instead of stepping into an overflow.
#[test]
fn state_in_bounds_detects_divergence() {
    let cfg = default_cfg();
    let mut sim = Simulation::new(cfg);
    assert!(sim.state_in_bounds());
    let mut far = Node::new(10_000, 0, 0, 0, 0, 0);
    far.px = 2_000_000_000;
    sim.nodes.push(far);
    assert!(!sim.state_in_bounds());
}
