use vstd::prelude::*;

verus! {

use crate::config::{MAX_CHARGE, MAX_MASS, MAX_POS, SCALE};
use crate::math::iabs;

/// One point body: mass, charge, and the kinematic state carried from frame
/// to frame. Force and acceleration are recomputed fully each step; only
/// position and velocity persist.
///
/// Every field is fixed-point: a value of [`SCALE`] stands for `1.0`
/// simulation units.
#[derive(Clone, Copy, Debug, PartialEq, Eq, Structural)]
pub struct Node {
    /// Mass, positive by construction.
    pub m: i64,
    /// Charge; the sign decides whether the charge term attracts or repels.
    pub c: i64,
    /// Position, x component.
    pub px: i64,
    /// Position, y component.
    pub py: i64,
    /// Velocity, x component.
    pub vx: i64,
    /// Velocity, y component.
    pub vy: i64,
    /// Acceleration, x component; an output of the last integration step.
    pub ax: i64,
    /// Acceleration, y component; an output of the last integration step.
    pub ay: i64,
    /// Net force, x component; an output of the last force computation.
    pub fx: i64,
    /// Net force, y component; an output of the last force computation.
    pub fy: i64,
}

impl Node {
    /// The bounds under which one force-computation step on this body is
    /// free of overflow: mass positive and bounded, charge and the carried
    /// kinematic state bounded.
    pub open spec fn wf(self) -> bool {
        &&& 0 < self.m <= MAX_MASS
        &&& iabs(self.c as int) <= MAX_CHARGE
        &&& iabs(self.px as int) <= MAX_POS
        &&& iabs(self.py as int) <= MAX_POS
        &&& iabs(self.vx as int) <= MAX_POS
        &&& iabs(self.vy as int) <= MAX_POS
    }

    /// Builds a body from mass, charge, position and velocity, with zero
    /// force and acceleration. A non-positive mass is a programmer error
    /// and is excluded here, at construction: the integrator divides by it.
    pub fn new(m: i64, c: i64, px: i64, py: i64, vx: i64, vy: i64) -> (r: Node)
        requires
            0 < m <= MAX_MASS,
            iabs(c as int) <= MAX_CHARGE,
            iabs(px as int) <= MAX_POS,
            iabs(py as int) <= MAX_POS,
            iabs(vx as int) <= MAX_POS,
            iabs(vy as int) <= MAX_POS,
        ensures
            r == (Node { m, c, px, py, vx, vy, ax: 0, ay: 0, fx: 0, fy: 0 }),
            r.wf(),
    {
        Node { m, c, px, py, vx, vy, ax: 0, ay: 0, fx: 0, fy: 0 }
    }

    /// Position as a pair, for the renderer.
    pub fn get_position_tuple(&self) -> (r: (i64, i64))
        ensures
            r == (self.px, self.py),
    {
        (self.px, self.py)
    }

    /// Drawn diameter, for the renderer: a fixed `1.0` units, not
    /// physically derived.
    pub fn get_diameter(&self) -> (r: i64)
        ensures
            r == SCALE,
    {
        SCALE
    }

    /// Whether the charge is nonnegative; the renderer keys its visual
    /// style off this flag.
    pub fn is_positive_charge(&self) -> (r: bool)
        ensures
            r == (self.c >= 0),
    {
        self.c >= 0
    }
}

/// Every body of a set is within the engine's bounds.
pub open spec fn all_wf(s: Seq<Node>) -> bool {
    forall|i: int| 0 <= i < s.len() ==> (#[trigger] s[i]).wf()
}

/// Appends one freshly built body to the set.
pub fn emit_node(v: &mut Vec<Node>, x: i64, y: i64, vx: i64, vy: i64, m: i64, c: i64)
    requires
        0 < m <= MAX_MASS,
        iabs(c as int) <= MAX_CHARGE,
        iabs(x as int) <= MAX_POS,
        iabs(y as int) <= MAX_POS,
        iabs(vx as int) <= MAX_POS,
        iabs(vy as int) <= MAX_POS,
        old(v).len() < usize::MAX,
    ensures
        final(v)@ == old(v)@.push(
            Node { m, c, px: x, py: y, vx, vy, ax: 0, ay: 0, fx: 0, fy: 0 },
        ),
{
    let node = Node::new(m, c, x, y, vx, vy);
    v.push(node);
}

/// Reports whether every body of the set is within the engine's bounds, so
/// a caller can refuse to step a diverged state instead of overflowing.
pub fn check_all_wf(v: &Vec<Node>) -> (r: bool)
    ensures
        r == all_wf(v@),
{
    let mut i: usize = 0;
    while i < v.len()
        invariant
            i <= v.len(),
            forall|j: int| 0 <= j < i ==> (#[trigger] v@[j]).wf(),
        decreases v.len() - i,
    {
        let n = &v[i];
        let ok = 0 < n.m && n.m <= MAX_MASS && -MAX_CHARGE <= n.c && n.c <= MAX_CHARGE
            && -MAX_POS <= n.px && n.px <= MAX_POS && -MAX_POS <= n.py && n.py <= MAX_POS
            && -MAX_POS <= n.vx && n.vx <= MAX_POS && -MAX_POS <= n.vy && n.vy <= MAX_POS;
        if !ok {
            return false;
        }
        i += 1;
    }
    true
}

} // verus!
