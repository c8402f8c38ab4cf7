//! The propagation engine: converts each body's intrinsic velocity into the
//! velocity actually applied this tick, by resolving blocking, pushing and
//! carrying along the four adjacency directions.
//!
//! The three contributions are kept apart in a `Propagation` record:
//! intrinsic motion, externally pushed motion and carried motion sum, while
//! solidity bounds clamp the total instead of contributing to it. A per-tick
//! visited set guarantees at-most-once resolution of every body; ground is an
//! absorbing sink that never moves and never relays.
//!
//! Chains are walked with a fuel budget handed in by the caller (the tick
//! hands the body count): a relation chain longer than the budget is treated
//! conservatively as walled or blocked. The geometric graph builder cannot
//! produce such a chain, since coordinates are strictly monotone along it.

use vstd::prelude::*;
use crate::geom::{Vec2i, vel_ok, vel2_ok, cap_vel, cap_vel_spec};
use crate::body::{Body, Role, Arm, steps_linked};
use crate::graph::{rows_in_range, row_in_range, rows_view};
use crate::stepper::{arm_velocity, arm_velocity_spec};

verus! {

/// The per-body accumulator of one tick's propagation.
#[derive(Clone, Copy, Debug)]
pub struct Propagation {
    /// How far left the body may move at most (a lower clamp on x).
    pub left_x_bound: Option<i64>,
    /// How far right the body may move at most (an upper clamp on x).
    pub right_x_bound: Option<i64>,
    /// Horizontal velocity shoved into the body by a neighbour.
    pub push: Option<i64>,
    /// Velocity imparted by a surface the body rides on.
    pub carry: Option<Vec2i>,
    /// The body's own resolved intrinsic velocity.
    pub intrinsic: Option<Vec2i>,
}

impl Propagation {
    pub open spec fn empty_spec() -> Propagation {
        Propagation { left_x_bound: None, right_x_bound: None, push: None, carry: None, intrinsic: None }
    }

    pub fn empty() -> (p: Propagation)
        ensures
            p == Propagation::empty_spec(),
    {
        Propagation { left_x_bound: None, right_x_bound: None, push: None, carry: None, intrinsic: None }
    }

    /// No propagation reached this body: it is not moved this tick.
    pub open spec fn untouched(self) -> bool {
        self.push is None && self.carry is None && self.intrinsic is None
    }

    pub open spec fn wf(self) -> bool {
        &&& (self.left_x_bound matches Some(b) ==> vel_ok(b))
        &&& (self.right_x_bound matches Some(b) ==> vel_ok(b))
        &&& (self.push matches Some(p) ==> vel_ok(p))
        &&& (self.carry matches Some(v) ==> vel2_ok(v))
        &&& (self.intrinsic matches Some(v) ==> vel2_ok(v))
    }
}

pub open spec fn all_prop_wf(rs: Seq<Propagation>) -> bool {
    forall|i: int| 0 <= i < rs.len() ==> (#[trigger] rs[i]).wf()
}

/// The rows fit the body store.
pub open spec fn ctx_wf(bodies: Seq<Body>, rows: Seq<Seq<usize>>) -> bool {
    rows.len() == bodies.len() && rows_in_range(rows, bodies.len())
}

// ------------------------------------------------------------------
// Combining rules.

/// The tighter of two lower clamps is the larger one.
pub open spec fn opt_bound_max_spec(a: Option<i64>, b: Option<i64>) -> Option<i64> {
    match (a, b) {
        (None, _) => b,
        (_, None) => a,
        (Some(x), Some(y)) => Some(if x >= y { x } else { y }),
    }
}

/// The tighter of two upper clamps is the smaller one.
pub open spec fn opt_bound_min_spec(a: Option<i64>, b: Option<i64>) -> Option<i64> {
    match (a, b) {
        (None, _) => b,
        (_, None) => a,
        (Some(x), Some(y)) => Some(if x <= y { x } else { y }),
    }
}

pub open spec fn abs_of(v: i64) -> int {
    if v < 0 {
        -(v as int)
    } else {
        v as int
    }
}

/// Two pushes arriving independently do not add up: the body takes the
/// larger-magnitude one, so that it is never double-pushed past either
/// source.
pub open spec fn max_abs_spec(a: i64, b: i64) -> i64 {
    if abs_of(a) >= abs_of(b) {
        a
    } else {
        b
    }
}

pub open spec fn push_combine(old: Option<i64>, pv: i64) -> Option<i64> {
    match old {
        None => Some(pv),
        Some(o) => Some(max_abs_spec(o, pv)),
    }
}

/// A rider on several surfaces inherits the velocity of the highest-rising
/// (least falling) one; a tie goes to the faster-right one, so the rule does
/// not depend on the order in which carries arrive.
pub open spec fn carry_combine(old: Option<Vec2i>, v: Vec2i) -> Option<Vec2i> {
    match old {
        None => Some(v),
        Some(o) => Some(
            if v.y > o.y || (v.y == o.y && v.x > o.x) {
                v
            } else {
                o
            },
        ),
    }
}

/// Clamp from below by an optional lower bound.
pub open spec fn clamp_lo(v: i64, b: Option<i64>) -> i64 {
    match b {
        None => v,
        Some(lb) => if v >= lb { v } else { lb },
    }
}

/// Clamp from above by an optional upper bound.
pub open spec fn clamp_hi(v: i64, b: Option<i64>) -> i64 {
    match b {
        None => v,
        Some(rb) => if v <= rb { v } else { rb },
    }
}

pub open spec fn sat_inc(c: u32) -> u32 {
    if c == u32::MAX {
        c
    } else {
        (c + 1) as u32
    }
}

/// The velocity a finished record resolves to: the three contributions sum,
/// the bounds clamp the horizontal total, and both components saturate at
/// the velocity cap. A record nothing touched resolves to `None`.
pub open spec fn final_velocity(p: Propagation) -> Option<Vec2i> {
    if p.untouched() {
        None
    } else {
        let px: int = match p.push {
            None => 0,
            Some(v) => v as int,
        };
        let c = match p.carry {
            None => Vec2i::zero_spec(),
            Some(v) => v,
        };
        let iv = match p.intrinsic {
            None => Vec2i::zero_spec(),
            Some(v) => v,
        };
        let sx = px + c.x + iv.x;
        let sx1 = match p.left_x_bound {
            None => sx,
            Some(lb) => if sx >= lb { sx } else { lb as int },
        };
        let sx2 = match p.right_x_bound {
            None => sx1,
            Some(rb) => if sx1 <= rb { sx1 } else { rb as int },
        };
        Some(Vec2i { x: cap_vel_spec(sx2), y: cap_vel_spec(c.y + iv.y) })
    }
}

pub fn velocity_of(p: &Propagation) -> (r: Option<Vec2i>)
    requires
        p.wf(),
    ensures
        r == final_velocity(*p),
        r matches Some(v) ==> vel2_ok(v),
{
    if p.push.is_none() && p.carry.is_none() && p.intrinsic.is_none() {
        return None;
    }
    let px: i64 = match p.push {
        None => 0,
        Some(v) => v,
    };
    let c: Vec2i = match p.carry {
        None => Vec2i::zero(),
        Some(v) => v,
    };
    let iv: Vec2i = match p.intrinsic {
        None => Vec2i::zero(),
        Some(v) => v,
    };
    let mut sx = px + c.x + iv.x;
    if let Some(lb) = p.left_x_bound {
        if sx < lb {
            sx = lb;
        }
    }
    if let Some(rb) = p.right_x_bound {
        if sx > rb {
            sx = rb;
        }
    }
    Some(Vec2i { x: cap_vel(sx), y: cap_vel(c.y + iv.y) })
}

// ------------------------------------------------------------------
// Bound tests: how far a chain of neighbours lets a mover go.

/// What a single body opposes to a leftward mover: ground is a hard wall, a
/// step opposes the horizontal motion of its own leg of the loop — its arm
/// velocity, under either step plan, since a track-driven step walks the
/// same legs and its catch-up corrections are placement, not opposable
/// motion. So a step can push and be pushed without walling, while an
/// inactive step in arm `A` opposes zero: it still blocks, it only does not
/// relay. Anything else passes the question on to its own left neighbours.
/// Exhausted fuel is a wall.
pub open spec fn test_left_spec(bodies: Seq<Body>, lefts: Seq<Seq<usize>>, e: int, fuel: nat) -> Option<
    i64,
>
    decreases fuel, 0nat,
{
    if fuel == 0 {
        Some(0)
    } else if !(0 <= e < bodies.len()) {
        None
    } else {
        match bodies[e].role {
            Role::Ground => Some(0i64),
            Role::Step { arm, .. } => Some(arm_velocity_spec(arm).x),
            _ => left_bound_from(bodies, lefts, lefts[e], 0, (fuel - 1) as nat),
        }
    }
}

/// The strictest (largest) leftward bound any of the listed neighbours
/// imposes; `None` when none of them does.
pub open spec fn left_bound_from(
    bodies: Seq<Body>,
    lefts: Seq<Seq<usize>>,
    row: Seq<usize>,
    k: int,
    fuel: nat,
) -> Option<i64>
    decreases fuel, row.len() - k,
{
    if !(0 <= k < row.len()) {
        None
    } else {
        opt_bound_max_spec(
            test_left_spec(bodies, lefts, row[k] as int, fuel),
            left_bound_from(bodies, lefts, row, k + 1, fuel),
        )
    }
}

pub open spec fn test_right_spec(bodies: Seq<Body>, rights: Seq<Seq<usize>>, e: int, fuel: nat) -> Option<
    i64,
>
    decreases fuel, 0nat,
{
    if fuel == 0 {
        Some(0)
    } else if !(0 <= e < bodies.len()) {
        None
    } else {
        match bodies[e].role {
            Role::Ground => Some(0i64),
            Role::Step { arm, .. } => Some(arm_velocity_spec(arm).x),
            _ => right_bound_from(bodies, rights, rights[e], 0, (fuel - 1) as nat),
        }
    }
}

pub open spec fn right_bound_from(
    bodies: Seq<Body>,
    rights: Seq<Seq<usize>>,
    row: Seq<usize>,
    k: int,
    fuel: nat,
) -> Option<i64>
    decreases fuel, row.len() - k,
{
    if !(0 <= k < row.len()) {
        None
    } else {
        opt_bound_min_spec(
            test_right_spec(bodies, rights, row[k] as int, fuel),
            right_bound_from(bodies, rights, row, k + 1, fuel),
        )
    }
}

/// An upward chain from `e` reaches ground: the mover is pressed against a
/// solid ceiling. Exhausted fuel counts as blocked.
pub open spec fn blocked_up_spec(bodies: Seq<Body>, tops: Seq<Seq<usize>>, e: int, fuel: nat) -> bool
    decreases fuel, 0nat,
{
    if fuel == 0 {
        true
    } else if !(0 <= e < bodies.len()) {
        false
    } else if bodies[e].role is Ground {
        true
    } else {
        any_up_from(bodies, tops, tops[e], 0, (fuel - 1) as nat)
    }
}

pub open spec fn any_up_from(bodies: Seq<Body>, tops: Seq<Seq<usize>>, row: Seq<usize>, k: int, fuel: nat) -> bool
    decreases fuel, row.len() - k,
{
    if !(0 <= k < row.len()) {
        false
    } else {
        blocked_up_spec(bodies, tops, row[k] as int, fuel) || any_up_from(bodies, tops, row, k + 1, fuel)
    }
}

pub open spec fn blocked_down_spec(bodies: Seq<Body>, bottoms: Seq<Seq<usize>>, e: int, fuel: nat) -> bool
    decreases fuel, 0nat,
{
    if fuel == 0 {
        true
    } else if !(0 <= e < bodies.len()) {
        false
    } else if bodies[e].role is Ground {
        true
    } else {
        any_down_from(bodies, bottoms, bottoms[e], 0, (fuel - 1) as nat)
    }
}

pub open spec fn any_down_from(
    bodies: Seq<Body>,
    bottoms: Seq<Seq<usize>>,
    row: Seq<usize>,
    k: int,
    fuel: nat,
) -> bool
    decreases fuel, row.len() - k,
{
    if !(0 <= k < row.len()) {
        false
    } else {
        blocked_down_spec(bodies, bottoms, row[k] as int, fuel) || any_down_from(
            bodies,
            bottoms,
            row,
            k + 1,
            fuel,
        )
    }
}

// ------------------------------------------------------------------
// Exec bound tests.

fn opt_bound_max(a: Option<i64>, b: Option<i64>) -> (r: Option<i64>)
    ensures
        r == opt_bound_max_spec(a, b),
{
    match (a, b) {
        (None, _) => b,
        (Some(_), None) => a,
        (Some(x), Some(y)) => Some(if x >= y { x } else { y }),
    }
}

fn opt_bound_min(a: Option<i64>, b: Option<i64>) -> (r: Option<i64>)
    ensures
        r == opt_bound_min_spec(a, b),
{
    match (a, b) {
        (None, _) => b,
        (Some(_), None) => a,
        (Some(x), Some(y)) => Some(if x <= y { x } else { y }),
    }
}

/// Fold the left-bound test over all left neighbours of `e`.
fn left_bound_over(bodies: &Vec<Body>, lefts: &Vec<Vec<usize>>, e: usize, fuel: usize) -> (r: Option<i64>)
    requires
        ctx_wf(bodies@, rows_view(lefts@)),
        e < bodies@.len(),
    ensures
        r == left_bound_from(bodies@, rows_view(lefts@), rows_view(lefts@)[e as int], 0, fuel as nat),
        r matches Some(b) ==> vel_ok(b),
    decreases fuel, 1int,
{
    let row = &lefts[e];
    proof {
        assert(rows_view(lefts@)[e as int] == lefts@[e as int]@);
        assert(row_in_range(rows_view(lefts@)[e as int], bodies@.len()));
    }
    let mut k = row.len();
    let mut acc: Option<i64> = None;
    while k > 0
        invariant
            ctx_wf(bodies@, rows_view(lefts@)),
            e < bodies@.len(),
            row@ == rows_view(lefts@)[e as int],
            row_in_range(row@, bodies@.len()),
            k <= row@.len(),
            acc == left_bound_from(bodies@, rows_view(lefts@), row@, k as int, fuel as nat),
            acc matches Some(b) ==> vel_ok(b),
        decreases k,
    {
        k = k - 1;
        let child = row[k];
        let tb = test_left(bodies, lefts, child, fuel);
        acc = opt_bound_max(tb, acc);
    }
    acc
}

pub fn test_left(bodies: &Vec<Body>, lefts: &Vec<Vec<usize>>, e: usize, fuel: usize) -> (r: Option<i64>)
    requires
        ctx_wf(bodies@, rows_view(lefts@)),
        e < bodies@.len(),
    ensures
        r == test_left_spec(bodies@, rows_view(lefts@), e as int, fuel as nat),
        r matches Some(b) ==> vel_ok(b),
    decreases fuel, 0int,
{
    if fuel == 0 {
        return Some(0);
    }
    match bodies[e].role {
        Role::Ground => Some(0),
        Role::Step { arm, .. } => Some(arm_velocity(arm).x),
        _ => left_bound_over(bodies, lefts, e, fuel - 1),
    }
}

fn right_bound_over(bodies: &Vec<Body>, rights: &Vec<Vec<usize>>, e: usize, fuel: usize) -> (r: Option<
    i64,
>)
    requires
        ctx_wf(bodies@, rows_view(rights@)),
        e < bodies@.len(),
    ensures
        r == right_bound_from(bodies@, rows_view(rights@), rows_view(rights@)[e as int], 0, fuel as nat),
        r matches Some(b) ==> vel_ok(b),
    decreases fuel, 1int,
{
    let row = &rights[e];
    proof {
        assert(rows_view(rights@)[e as int] == rights@[e as int]@);
        assert(row_in_range(rows_view(rights@)[e as int], bodies@.len()));
    }
    let mut k = row.len();
    let mut acc: Option<i64> = None;
    while k > 0
        invariant
            ctx_wf(bodies@, rows_view(rights@)),
            e < bodies@.len(),
            row@ == rows_view(rights@)[e as int],
            row_in_range(row@, bodies@.len()),
            k <= row@.len(),
            acc == right_bound_from(bodies@, rows_view(rights@), row@, k as int, fuel as nat),
            acc matches Some(b) ==> vel_ok(b),
        decreases k,
    {
        k = k - 1;
        let child = row[k];
        let tb = test_right(bodies, rights, child, fuel);
        acc = opt_bound_min(tb, acc);
    }
    acc
}

pub fn test_right(bodies: &Vec<Body>, rights: &Vec<Vec<usize>>, e: usize, fuel: usize) -> (r: Option<i64>)
    requires
        ctx_wf(bodies@, rows_view(rights@)),
        e < bodies@.len(),
    ensures
        r == test_right_spec(bodies@, rows_view(rights@), e as int, fuel as nat),
        r matches Some(b) ==> vel_ok(b),
    decreases fuel, 0int,
{
    if fuel == 0 {
        return Some(0);
    }
    match bodies[e].role {
        Role::Ground => Some(0),
        Role::Step { arm, .. } => Some(arm_velocity(arm).x),
        _ => right_bound_over(bodies, rights, e, fuel - 1),
    }
}

fn any_up_over(bodies: &Vec<Body>, tops: &Vec<Vec<usize>>, e: usize, fuel: usize) -> (r: bool)
    requires
        ctx_wf(bodies@, rows_view(tops@)),
        e < bodies@.len(),
    ensures
        r == any_up_from(bodies@, rows_view(tops@), rows_view(tops@)[e as int], 0, fuel as nat),
    decreases fuel, 1int,
{
    let row = &tops[e];
    proof {
        assert(rows_view(tops@)[e as int] == tops@[e as int]@);
        assert(row_in_range(rows_view(tops@)[e as int], bodies@.len()));
    }
    let mut k = row.len();
    let mut acc = false;
    while k > 0
        invariant
            ctx_wf(bodies@, rows_view(tops@)),
            e < bodies@.len(),
            row@ == rows_view(tops@)[e as int],
            row_in_range(row@, bodies@.len()),
            k <= row@.len(),
            acc == any_up_from(bodies@, rows_view(tops@), row@, k as int, fuel as nat),
        decreases k,
    {
        k = k - 1;
        let child = row[k];
        let b = blocked_up(bodies, tops, child, fuel);
        acc = b || acc;
    }
    acc
}

pub fn blocked_up(bodies: &Vec<Body>, tops: &Vec<Vec<usize>>, e: usize, fuel: usize) -> (r: bool)
    requires
        ctx_wf(bodies@, rows_view(tops@)),
        e < bodies@.len(),
    ensures
        r == blocked_up_spec(bodies@, rows_view(tops@), e as int, fuel as nat),
    decreases fuel, 0int,
{
    if fuel == 0 {
        return true;
    }
    match bodies[e].role {
        Role::Ground => true,
        _ => any_up_over(bodies, tops, e, fuel - 1),
    }
}

fn any_down_over(bodies: &Vec<Body>, bottoms: &Vec<Vec<usize>>, e: usize, fuel: usize) -> (r: bool)
    requires
        ctx_wf(bodies@, rows_view(bottoms@)),
        e < bodies@.len(),
    ensures
        r == any_down_from(bodies@, rows_view(bottoms@), rows_view(bottoms@)[e as int], 0, fuel as nat),
    decreases fuel, 1int,
{
    let row = &bottoms[e];
    proof {
        assert(rows_view(bottoms@)[e as int] == bottoms@[e as int]@);
        assert(row_in_range(rows_view(bottoms@)[e as int], bodies@.len()));
    }
    let mut k = row.len();
    let mut acc = false;
    while k > 0
        invariant
            ctx_wf(bodies@, rows_view(bottoms@)),
            e < bodies@.len(),
            row@ == rows_view(bottoms@)[e as int],
            row_in_range(row@, bodies@.len()),
            k <= row@.len(),
            acc == any_down_from(bodies@, rows_view(bottoms@), row@, k as int, fuel as nat),
        decreases k,
    {
        k = k - 1;
        let child = row[k];
        let b = blocked_down(bodies, bottoms, child, fuel);
        acc = b || acc;
    }
    acc
}

pub fn blocked_down(bodies: &Vec<Body>, bottoms: &Vec<Vec<usize>>, e: usize, fuel: usize) -> (r: bool)
    requires
        ctx_wf(bodies@, rows_view(bottoms@)),
        e < bodies@.len(),
    ensures
        r == blocked_down_spec(bodies@, rows_view(bottoms@), e as int, fuel as nat),
    decreases fuel, 0int,
{
    if fuel == 0 {
        return true;
    }
    match bodies[e].role {
        Role::Ground => true,
        _ => any_down_over(bodies, bottoms, e, fuel - 1),
    }
}

// ------------------------------------------------------------------
// Push relay.

/// Shove `pv` into body `e`: re-derive the bounds in the direction of the
/// shove, clamp, take the larger-magnitude of this and any push already
/// there, and relay onward if the body is an active relay.
pub open spec fn x_push_spec(
    bodies: Seq<Body>,
    lefts: Seq<Seq<usize>>,
    rights: Seq<Seq<usize>>,
    e: int,
    pv: i64,
    results: Seq<Propagation>,
    fuel: nat,
) -> Seq<Propagation>
    decreases fuel, 0int,
{
    if fuel == 0 || !(0 <= e < bodies.len()) || bodies[e].role is Ground || pv == 0 {
        results
    } else {
        let lb = if pv < 0 {
            left_bound_from(bodies, lefts, lefts[e], 0, fuel)
        } else {
            None
        };
        let rb = if pv > 0 {
            right_bound_from(bodies, rights, rights[e], 0, fuel)
        } else {
            None
        };
        let pv1 = clamp_hi(clamp_lo(pv, lb), rb);
        let rec = results[e];
        let rec1 = Propagation {
            left_x_bound: if pv < 0 {
                opt_bound_max_spec(rec.left_x_bound, lb)
            } else {
                rec.left_x_bound
            },
            right_x_bound: if pv > 0 {
                opt_bound_min_spec(rec.right_x_bound, rb)
            } else {
                rec.right_x_bound
            },
            push: push_combine(rec.push, pv1),
            carry: rec.carry,
            intrinsic: rec.intrinsic,
        };
        let results1 = results.update(e, rec1);
        if bodies[e].is_active() && pv1 != 0 {
            if pv1 < 0 {
                push_list_spec(bodies, lefts, rights, lefts[e], 0, pv1, results1, (fuel - 1) as nat)
            } else {
                push_list_spec(bodies, lefts, rights, rights[e], 0, pv1, results1, (fuel - 1) as nat)
            }
        } else {
            results1
        }
    }
}

pub open spec fn push_list_spec(
    bodies: Seq<Body>,
    lefts: Seq<Seq<usize>>,
    rights: Seq<Seq<usize>>,
    row: Seq<usize>,
    k: int,
    pv: i64,
    results: Seq<Propagation>,
    fuel: nat,
) -> Seq<Propagation>
    decreases fuel, row.len() - k,
{
    if !(0 <= k < row.len()) {
        results
    } else {
        let results1 = x_push_spec(bodies, lefts, rights, row[k] as int, pv, results, fuel);
        push_list_spec(bodies, lefts, rights, row, k + 1, pv, results1, fuel)
    }
}

fn body_active(b: &Body) -> (r: bool)
    ensures
        r == b.is_active(),
{
    match b.role {
        Role::Step { arm: Arm::A, .. } => false,
        _ => true,
    }
}

pub fn x_push(
    bodies: &Vec<Body>,
    lefts: &Vec<Vec<usize>>,
    rights: &Vec<Vec<usize>>,
    e: usize,
    pv: i64,
    results: &mut Vec<Propagation>,
    fuel: usize,
)
    requires
        ctx_wf(bodies@, rows_view(lefts@)),
        ctx_wf(bodies@, rows_view(rights@)),
        e < bodies@.len(),
        vel_ok(pv),
        old(results)@.len() == bodies@.len(),
        all_prop_wf(old(results)@),
    ensures
        final(results)@ == x_push_spec(
            bodies@,
            rows_view(lefts@),
            rows_view(rights@),
            e as int,
            pv,
            old(results)@,
            fuel as nat,
        ),
        final(results)@.len() == old(results)@.len(),
        all_prop_wf(final(results)@),
    decreases fuel,
{
    if fuel == 0 {
        return;
    }
    let b = &bodies[e];
    match b.role {
        Role::Ground => {
            return;
        },
        _ => {},
    }
    if pv == 0 {
        return;
    }
    let lb = if pv < 0 {
        left_bound_over(bodies, lefts, e, fuel)
    } else {
        None
    };
    let rb = if pv > 0 {
        right_bound_over(bodies, rights, e, fuel)
    } else {
        None
    };
    let mut pv1 = pv;
    if let Some(lbv) = lb {
        if pv1 < lbv {
            pv1 = lbv;
        }
    }
    if let Some(rbv) = rb {
        if pv1 > rbv {
            pv1 = rbv;
        }
    }
    assert(pv1 == clamp_hi(clamp_lo(pv, lb), rb));
    let rec = results[e];
    let rec1 = Propagation {
        left_x_bound: if pv < 0 {
            opt_bound_max(rec.left_x_bound, lb)
        } else {
            rec.left_x_bound
        },
        right_x_bound: if pv > 0 {
            opt_bound_min(rec.right_x_bound, rb)
        } else {
            rec.right_x_bound
        },
        push: match rec.push {
            None => Some(pv1),
            Some(o) => Some(
                {
                    let oa = if o < 0 { -o } else { o };
                    let pa = if pv1 < 0 { -pv1 } else { pv1 };
                    if oa >= pa { o } else { pv1 }
                },
            ),
        },
        carry: rec.carry,
        intrinsic: rec.intrinsic,
    };
    results.set(e, rec1);
    let active = body_active(b);
    if active && pv1 != 0 {
        let ghost lrows = rows_view(lefts@);
        let ghost rrows = rows_view(rights@);
        let ghost total = x_push_spec(bodies@, lrows, rrows, e as int, pv, old(results)@, fuel as nat);
        let row = if pv1 < 0 {
            &lefts[e]
        } else {
            &rights[e]
        };
        proof {
            if pv1 < 0 {
                assert(row@ == lrows[e as int]);
            } else {
                assert(row@ == rrows[e as int]);
            }
            assert(row_in_range(row@, bodies@.len()));
        }
        let mut k: usize = 0;
        while k < row.len()
            invariant
                ctx_wf(bodies@, lrows),
                ctx_wf(bodies@, rrows),
                lrows == rows_view(lefts@),
                rrows == rows_view(rights@),
                e < bodies@.len(),
                vel_ok(pv1),
                pv1 != 0,
                fuel >= 1,
                k <= row@.len(),
                row_in_range(row@, bodies@.len()),
                results@.len() == bodies@.len(),
                all_prop_wf(results@),
                push_list_spec(bodies@, lrows, rrows, row@, k as int, pv1, results@, (fuel - 1) as nat)
                    == total,
            decreases row@.len() - k,
        {
            let child = row[k];
            x_push(bodies, lefts, rights, child, pv1, results, fuel - 1);
            k = k + 1;
        }
        assert(results@ == total);
    }
}

// ------------------------------------------------------------------
// Carry relay.

/// A surface hands its velocity `v` to the rider `e`; the rider keeps the
/// highest-rising carry it has been handed, and an active rider hands the
/// same velocity on to its own riders.
pub open spec fn carry_spec(
    bodies: Seq<Body>,
    tops: Seq<Seq<usize>>,
    e: int,
    v: Vec2i,
    results: Seq<Propagation>,
    fuel: nat,
) -> Seq<Propagation>
    decreases fuel, 0int,
{
    if fuel == 0 || !(0 <= e < bodies.len()) || bodies[e].role is Ground {
        results
    } else {
        let rec = results[e];
        let rec1 = Propagation {
            left_x_bound: rec.left_x_bound,
            right_x_bound: rec.right_x_bound,
            push: rec.push,
            carry: carry_combine(rec.carry, v),
            intrinsic: rec.intrinsic,
        };
        let results1 = results.update(e, rec1);
        if bodies[e].is_active() {
            carry_list_spec(bodies, tops, tops[e], 0, v, results1, (fuel - 1) as nat)
        } else {
            results1
        }
    }
}

pub open spec fn carry_list_spec(
    bodies: Seq<Body>,
    tops: Seq<Seq<usize>>,
    row: Seq<usize>,
    k: int,
    v: Vec2i,
    results: Seq<Propagation>,
    fuel: nat,
) -> Seq<Propagation>
    decreases fuel, row.len() - k,
{
    if !(0 <= k < row.len()) {
        results
    } else {
        let results1 = carry_spec(bodies, tops, row[k] as int, v, results, fuel);
        carry_list_spec(bodies, tops, row, k + 1, v, results1, fuel)
    }
}

pub fn carry(
    bodies: &Vec<Body>,
    tops: &Vec<Vec<usize>>,
    e: usize,
    v: Vec2i,
    results: &mut Vec<Propagation>,
    fuel: usize,
)
    requires
        ctx_wf(bodies@, rows_view(tops@)),
        e < bodies@.len(),
        vel2_ok(v),
        old(results)@.len() == bodies@.len(),
        all_prop_wf(old(results)@),
    ensures
        final(results)@ == carry_spec(bodies@, rows_view(tops@), e as int, v, old(results)@, fuel as nat),
        final(results)@.len() == old(results)@.len(),
        all_prop_wf(final(results)@),
    decreases fuel,
{
    if fuel == 0 {
        return;
    }
    let b = &bodies[e];
    match b.role {
        Role::Ground => {
            return;
        },
        _ => {},
    }
    let rec = results[e];
    let rec1 = Propagation {
        left_x_bound: rec.left_x_bound,
        right_x_bound: rec.right_x_bound,
        push: rec.push,
        carry: match rec.carry {
            None => Some(v),
            Some(o) => Some(
                if v.y > o.y || (v.y == o.y && v.x > o.x) {
                    v
                } else {
                    o
                },
            ),
        },
        intrinsic: rec.intrinsic,
    };
    results.set(e, rec1);
    let active = body_active(b);
    if active {
        let ghost trows = rows_view(tops@);
        let ghost total = carry_spec(bodies@, trows, e as int, v, old(results)@, fuel as nat);
        let row = &tops[e];
        proof {
            assert(row@ == trows[e as int]);
            assert(row_in_range(row@, bodies@.len()));
        }
        let mut k: usize = 0;
        while k < row.len()
            invariant
                ctx_wf(bodies@, trows),
                trows == rows_view(tops@),
                e < bodies@.len(),
                vel2_ok(v),
                fuel >= 1,
                k <= row@.len(),
                row_in_range(row@, bodies@.len()),
                results@.len() == bodies@.len(),
                all_prop_wf(results@),
                carry_list_spec(bodies@, trows, row@, k as int, v, results@, (fuel - 1) as nat) == total,
            decreases row@.len() - k,
        {
            let child = row[k];
            carry(bodies, tops, child, v, results, fuel - 1);
            k = k + 1;
        }
        assert(results@ == total);
    }
}

// ------------------------------------------------------------------
// Top-level propagation of one intrinsic source.

/// Resolve the intrinsic velocity `iv` of body `e` and relay the outcome.
/// Ground returns at once; a body already visited this tick is not resolved
/// twice. Horizontal motion is clamped by the bounds the neighbours in the
/// direction of motion impose; vertical motion is cancelled against a
/// grounded chain above or below, except for steps, which ride their
/// escalator mechanically and are exempt from vertical blocking. A step's
/// carry is its escalator's already-resolved velocity. An active body then
/// relays: it pushes its resolved horizontal motion into the neighbours it
/// moves toward, and carries its resolved full velocity to everything riding
/// on it.
pub open spec fn propagate_spec(
    bodies: Seq<Body>,
    lefts: Seq<Seq<usize>>,
    rights: Seq<Seq<usize>>,
    tops: Seq<Seq<usize>>,
    bottoms: Seq<Seq<usize>>,
    e: int,
    iv: Vec2i,
    results: Seq<Propagation>,
    visited: Seq<bool>,
    counts: Seq<u32>,
    fuel: nat,
) -> (Seq<Propagation>, Seq<bool>, Seq<u32>) {
    if !(0 <= e < bodies.len()) || bodies[e].role is Ground || visited[e] {
        (results, visited, counts)
    } else {
        let visited1 = visited.update(e, true);
        let counts1 = counts.update(e, sat_inc(counts[e]));
        let lb = if iv.x < 0 {
            left_bound_from(bodies, lefts, lefts[e], 0, fuel)
        } else {
            None
        };
        let rb = if iv.x > 0 {
            right_bound_from(bodies, rights, rights[e], 0, fuel)
        } else {
            None
        };
        let vx = clamp_hi(clamp_lo(iv.x, lb), rb);
        let vy = if bodies[e].role is Step {
            iv.y
        } else if iv.y > 0 && blocked_up_spec(bodies, tops, e, fuel) {
            0i64
        } else if iv.y < 0 && blocked_down_spec(bodies, bottoms, e, fuel) {
            0i64
        } else {
            iv.y
        };
        let esc_v = match bodies[e].role {
            Role::Step { escalator, .. } => match final_velocity(results[escalator as int]) {
                Some(w) => w,
                None => Vec2i::zero_spec(),
            },
            _ => Vec2i::zero_spec(),
        };
        let rec = results[e];
        let rec1 = Propagation {
            left_x_bound: opt_bound_max_spec(rec.left_x_bound, lb),
            right_x_bound: opt_bound_min_spec(rec.right_x_bound, rb),
            push: rec.push,
            carry: if bodies[e].role is Step {
                carry_combine(rec.carry, esc_v)
            } else {
                rec.carry
            },
            intrinsic: Some(Vec2i { x: vx, y: vy }),
        };
        let results1 = results.update(e, rec1);
        let results2 = if bodies[e].is_active() {
            let pushed = if vx < 0 {
                push_list_spec(bodies, lefts, rights, lefts[e], 0, vx, results1, fuel)
            } else if vx > 0 {
                push_list_spec(bodies, lefts, rights, rights[e], 0, vx, results1, fuel)
            } else {
                results1
            };
            let cv = if bodies[e].role is Step {
                Vec2i { x: cap_vel_spec(vx + esc_v.x), y: cap_vel_spec(vy + esc_v.y) }
            } else {
                Vec2i { x: vx, y: vy }
            };
            carry_list_spec(bodies, tops, tops[e], 0, cv, pushed, fuel)
        } else {
            results1
        };
        (results2, visited1, counts1)
    }
}

pub fn propagate(
    bodies: &Vec<Body>,
    lefts: &Vec<Vec<usize>>,
    rights: &Vec<Vec<usize>>,
    tops: &Vec<Vec<usize>>,
    bottoms: &Vec<Vec<usize>>,
    e: usize,
    iv: Vec2i,
    results: &mut Vec<Propagation>,
    visited: &mut Vec<bool>,
    counts: &mut Vec<u32>,
    fuel: usize,
)
    requires
        steps_linked(bodies@),
        ctx_wf(bodies@, rows_view(lefts@)),
        ctx_wf(bodies@, rows_view(rights@)),
        ctx_wf(bodies@, rows_view(tops@)),
        ctx_wf(bodies@, rows_view(bottoms@)),
        e < bodies@.len(),
        vel2_ok(iv),
        old(results)@.len() == bodies@.len(),
        all_prop_wf(old(results)@),
        old(visited)@.len() == bodies@.len(),
        old(counts)@.len() == bodies@.len(),
    ensures
        (final(results)@, final(visited)@, final(counts)@) == propagate_spec(
            bodies@,
            rows_view(lefts@),
            rows_view(rights@),
            rows_view(tops@),
            rows_view(bottoms@),
            e as int,
            iv,
            old(results)@,
            old(visited)@,
            old(counts)@,
            fuel as nat,
        ),
        final(results)@.len() == old(results)@.len(),
        final(visited)@.len() == old(visited)@.len(),
        final(counts)@.len() == old(counts)@.len(),
        all_prop_wf(final(results)@),
{
    let b = &bodies[e];
    match b.role {
        Role::Ground => {
            return;
        },
        _ => {},
    }
    if visited[e] {
        return;
    }
    visited.set(e, true);
    let c = counts[e];
    counts.set(e, if c == u32::MAX { c } else { c + 1 });
    let lb = if iv.x < 0 {
        left_bound_over(bodies, lefts, e, fuel)
    } else {
        None
    };
    let rb = if iv.x > 0 {
        right_bound_over(bodies, rights, e, fuel)
    } else {
        None
    };
    let mut vx = iv.x;
    if let Some(lbv) = lb {
        if vx < lbv {
            vx = lbv;
        }
    }
    if let Some(rbv) = rb {
        if vx > rbv {
            vx = rbv;
        }
    }
    assert(vx == clamp_hi(clamp_lo(iv.x, lb), rb));
    let e_is_step = match b.role {
        Role::Step { .. } => true,
        _ => false,
    };
    let mut vy = iv.y;
    if !e_is_step {
        if iv.y > 0 {
            if blocked_up(bodies, tops, e, fuel) {
                vy = 0;
            }
        } else if iv.y < 0 {
            if blocked_down(bodies, bottoms, e, fuel) {
                vy = 0;
            }
        }
    }
    let esc_v: Vec2i = match b.role {
        Role::Step { escalator, .. } => {
            match velocity_of(&results[escalator]) {
                Some(w) => w,
                None => Vec2i::zero(),
            }
        },
        _ => Vec2i::zero(),
    };
    let rec = results[e];
    let rec1 = Propagation {
        left_x_bound: opt_bound_max(rec.left_x_bound, lb),
        right_x_bound: opt_bound_min(rec.right_x_bound, rb),
        push: rec.push,
        carry: if e_is_step {
            match rec.carry {
                None => Some(esc_v),
                Some(o) => Some(
                    if esc_v.y > o.y || (esc_v.y == o.y && esc_v.x > o.x) {
                        esc_v
                    } else {
                        o
                    },
                ),
            }
        } else {
            rec.carry
        },
        intrinsic: Some(Vec2i { x: vx, y: vy }),
    };
    results.set(e, rec1);
    let ghost lrows = rows_view(lefts@);
    let ghost rrows = rows_view(rights@);
    let ghost trows = rows_view(tops@);
    let ghost brows = rows_view(bottoms@);
    let ghost spec_out = propagate_spec(
        bodies@,
        lrows,
        rrows,
        trows,
        brows,
        e as int,
        iv,
        old(results)@,
        old(visited)@,
        old(counts)@,
        fuel as nat,
    );
    let active = body_active(b);
    if active {
        if vx < 0 {
            let row = &lefts[e];
            proof {
                assert(row@ == lrows[e as int]);
                assert(row_in_range(row@, bodies@.len()));
            }
            let ghost pushed_total = push_list_spec(
                bodies@,
                lrows,
                rrows,
                row@,
                0,
                vx,
                results@,
                fuel as nat,
            );
            let mut k: usize = 0;
            while k < row.len()
                invariant
                    ctx_wf(bodies@, lrows),
                    ctx_wf(bodies@, rrows),
                    lrows == rows_view(lefts@),
                    rrows == rows_view(rights@),
                    e < bodies@.len(),
                    vel_ok(vx),
                    k <= row@.len(),
                    row_in_range(row@, bodies@.len()),
                    results@.len() == bodies@.len(),
                    all_prop_wf(results@),
                    push_list_spec(bodies@, lrows, rrows, row@, k as int, vx, results@, fuel as nat)
                        == pushed_total,
                decreases row@.len() - k,
            {
                let child = row[k];
                x_push(bodies, lefts, rights, child, vx, results, fuel);
                k = k + 1;
            }
            assert(results@ == pushed_total);
        } else if vx > 0 {
            let row = &rights[e];
            proof {
                assert(row@ == rrows[e as int]);
                assert(row_in_range(row@, bodies@.len()));
            }
            let ghost pushed_total = push_list_spec(
                bodies@,
                lrows,
                rrows,
                row@,
                0,
                vx,
                results@,
                fuel as nat,
            );
            let mut k: usize = 0;
            while k < row.len()
                invariant
                    ctx_wf(bodies@, lrows),
                    ctx_wf(bodies@, rrows),
                    lrows == rows_view(lefts@),
                    rrows == rows_view(rights@),
                    e < bodies@.len(),
                    vel_ok(vx),
                    k <= row@.len(),
                    row_in_range(row@, bodies@.len()),
                    results@.len() == bodies@.len(),
                    all_prop_wf(results@),
                    push_list_spec(bodies@, lrows, rrows, row@, k as int, vx, results@, fuel as nat)
                        == pushed_total,
                decreases row@.len() - k,
            {
                let child = row[k];
                x_push(bodies, lefts, rights, child, vx, results, fuel);
                k = k + 1;
            }
            assert(results@ == pushed_total);
        }
        let cv: Vec2i = if e_is_step {
            Vec2i { x: cap_vel(vx + esc_v.x), y: cap_vel(vy + esc_v.y) }
        } else {
            Vec2i { x: vx, y: vy }
        };
        let row = &tops[e];
        proof {
            assert(row@ == trows[e as int]);
            assert(row_in_range(row@, bodies@.len()));
        }
        let ghost carried_total = carry_list_spec(bodies@, trows, row@, 0, cv, results@, fuel as nat);
        let mut k: usize = 0;
        while k < row.len()
            invariant
                ctx_wf(bodies@, trows),
                trows == rows_view(tops@),
                e < bodies@.len(),
                vel2_ok(cv),
                k <= row@.len(),
                row_in_range(row@, bodies@.len()),
                results@.len() == bodies@.len(),
                all_prop_wf(results@),
                carry_list_spec(bodies@, trows, row@, k as int, cv, results@, fuel as nat)
                    == carried_total,
            decreases row@.len() - k,
        {
            let child = row[k];
            carry(bodies, tops, child, cv, results, fuel);
            k = k + 1;
        }
        assert(results@ == carried_total);
    }
    assert((results@, visited@, counts@) == spec_out);
}

} // verus!
