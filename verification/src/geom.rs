//! Integer plane geometry: vectors, axis-aligned rectangles, and the two
//! adjacency predicates (`is_atop`, `is_beside`) that the graph builder uses.

use vstd::prelude::*;

verus! {

/// Largest magnitude a velocity component may take, in milli-units per tick.
/// Every stored velocity component saturates here; with unit-sized intrinsic
/// velocities the cap is far out of reach of any ordinary scene.
pub const VEL_LIMIT: i64 = 1000;

/// Half-width of the world: positions saturate at the world edge.
pub const POS_LIMIT: i64 = 1_000_000_000_000;

/// Largest half-extent of a body.
pub const EXTENT_LIMIT: i64 = 1_000_000_000;

/// Largest per-tick time scale the integrator accepts.
pub const SCALE_LIMIT: i64 = 1_000_000;

/// Largest length of a step's track loop: the loop of the largest escalator.
pub const TRACK_LIMIT: i64 = 4 * EXTENT_LIMIT;

/// A 2D integer vector: a position or a velocity.
#[derive(Clone, Copy, PartialEq, Eq, Structural, Debug)]
pub struct Vec2i {
    pub x: i64,
    pub y: i64,
}

impl Vec2i {
    pub open spec fn zero_spec() -> Vec2i {
        Vec2i { x: 0, y: 0 }
    }

    pub fn zero() -> (v: Vec2i)
        ensures
            v == Vec2i::zero_spec(),
    {
        Vec2i { x: 0, y: 0 }
    }
}

/// A velocity component is in range.
pub open spec fn vel_ok(v: i64) -> bool {
    -VEL_LIMIT <= v <= VEL_LIMIT
}

/// A velocity vector is in range.
pub open spec fn vel2_ok(v: Vec2i) -> bool {
    vel_ok(v.x) && vel_ok(v.y)
}

/// A position component is in range.
pub open spec fn pos_ok(p: i64) -> bool {
    -POS_LIMIT <= p <= POS_LIMIT
}

/// Saturate a velocity component at the velocity cap.
pub open spec fn cap_vel_spec(v: int) -> i64 {
    if v < -VEL_LIMIT {
        (-VEL_LIMIT) as i64
    } else if v > VEL_LIMIT {
        VEL_LIMIT
    } else {
        v as i64
    }
}

pub fn cap_vel(v: i64) -> (r: i64)
    ensures
        r == cap_vel_spec(v as int),
        vel_ok(r),
{
    if v < -VEL_LIMIT {
        -VEL_LIMIT
    } else if v > VEL_LIMIT {
        VEL_LIMIT
    } else {
        v
    }
}

/// Saturate a position component at the world edge.
pub open spec fn cap_pos_spec(p: int) -> i64 {
    if p < -POS_LIMIT {
        (-POS_LIMIT) as i64
    } else if p > POS_LIMIT {
        POS_LIMIT
    } else {
        p as i64
    }
}

pub fn cap_pos(p: i64) -> (r: i64)
    ensures
        r == cap_pos_spec(p as int),
        pos_ok(r),
{
    if p < -POS_LIMIT {
        -POS_LIMIT
    } else if p > POS_LIMIT {
        POS_LIMIT
    } else {
        p
    }
}

/// An axis-aligned rectangle: a center and two half-extents.
/// It covers `[center.x - half_w, center.x + half_w] x [center.y - half_h, center.y + half_h]`.
#[derive(Clone, Copy, PartialEq, Eq, Structural, Debug)]
pub struct Rect {
    pub center: Vec2i,
    pub half_w: i64,
    pub half_h: i64,
}

impl Rect {
    pub open spec fn wf(self) -> bool {
        &&& pos_ok(self.center.x)
        &&& pos_ok(self.center.y)
        &&& 0 < self.half_w <= EXTENT_LIMIT
        &&& 0 < self.half_h <= EXTENT_LIMIT
    }

    pub open spec fn left(self) -> int {
        self.center.x - self.half_w
    }

    pub open spec fn right(self) -> int {
        self.center.x + self.half_w
    }

    pub open spec fn top(self) -> int {
        self.center.y + self.half_h
    }

    pub open spec fn bottom(self) -> int {
        self.center.y - self.half_h
    }
}

/// The x-intervals of `a` and `b` overlap. The rule is half-open (a shared
/// edge does not count as overlap), and asymmetric so that each unordered
/// pair is counted exactly once.
pub open spec fn x_overlap(a: Rect, b: Rect) -> bool {
    ||| (a.left() <= b.left() && b.left() < a.right())
    ||| (b.left() <= a.left() && a.left() < b.right())
}

/// The y-intervals of `a` and `b` overlap, by the same half-open rule.
pub open spec fn y_overlap(a: Rect, b: Rect) -> bool {
    ||| (a.bottom() <= b.bottom() && b.bottom() < a.top())
    ||| (b.bottom() <= a.bottom() && a.bottom() < b.top())
}

/// `a` rests on `b`: the bottom edge of `a` meets the top edge of `b`
/// exactly, and their x-intervals overlap.
pub open spec fn is_atop_spec(a: Rect, b: Rect) -> bool {
    a.bottom() == b.top() && x_overlap(a, b)
}

/// `l` stands immediately to the left of `r`: the right edge of `l` meets
/// the left edge of `r` exactly, and their y-intervals overlap.
pub open spec fn is_beside_spec(l: Rect, r: Rect) -> bool {
    l.right() == r.left() && y_overlap(l, r)
}

pub fn is_atop(a: &Rect, b: &Rect) -> (r: bool)
    requires
        a.wf(),
        b.wf(),
    ensures
        r == is_atop_spec(*a, *b),
{
    let a_bottom = a.center.y - a.half_h;
    let b_top = b.center.y + b.half_h;
    let a_left = a.center.x - a.half_w;
    let a_right = a.center.x + a.half_w;
    let b_left = b.center.x - b.half_w;
    let b_right = b.center.x + b.half_w;
    a_bottom == b_top && ((a_left <= b_left && b_left < a_right) || (b_left <= a_left && a_left < b_right))
}

pub fn is_beside(l: &Rect, r: &Rect) -> (res: bool)
    requires
        l.wf(),
        r.wf(),
    ensures
        res == is_beside_spec(*l, *r),
{
    let l_right = l.center.x + l.half_w;
    let r_left = r.center.x - r.half_w;
    let l_bottom = l.center.y - l.half_h;
    let l_top = l.center.y + l.half_h;
    let r_bottom = r.center.y - r.half_h;
    let r_top = r.center.y + r.half_h;
    l_right == r_left
        && ((l_bottom <= r_bottom && r_bottom < l_top) || (r_bottom <= l_bottom && l_bottom < r_top))
}

} // verus!
