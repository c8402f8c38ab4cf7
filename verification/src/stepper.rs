//! Escalator step motion: the four-arm state machine that walks a step
//! around its loop, the alternative closed-form track parametrization of the
//! same loop, and the initial placement of a full complement of steps.

use vstd::prelude::*;
use crate::geom::{Rect, Vec2i, cap_vel, cap_vel_spec, EXTENT_LIMIT, POS_LIMIT};
use crate::body::{Arm, Track};

verus! {

/// A step's intrinsic velocity is a pure function of its arm: `A` descends,
/// `B` descends diagonally, `C` traverses right, `D` ascends diagonally.
pub open spec fn arm_velocity_spec(arm: Arm) -> Vec2i {
    match arm {
        Arm::A => Vec2i { x: 0i64, y: -1i64 },
        Arm::B => Vec2i { x: 1i64, y: -1i64 },
        Arm::C => Vec2i { x: 1i64, y: 0i64 },
        Arm::D => Vec2i { x: -1i64, y: 1i64 },
    }
}

pub fn arm_velocity(arm: Arm) -> (v: Vec2i)
    ensures
        v == arm_velocity_spec(arm),
{
    match arm {
        Arm::A => Vec2i { x: 0, y: -1 },
        Arm::B => Vec2i { x: 1, y: -1 },
        Arm::C => Vec2i { x: 1, y: 0 },
        Arm::D => Vec2i { x: -1, y: 1 },
    }
}

/// The one-way cycle `A -> B -> C -> D -> A`, driven by the step's position
/// against its escalator's extents; `(x, y)` is the step's center and
/// `hw`/`hh` its half-extents.
///
/// - `A -> B` once the step's bottom edge has descended two step heights
///   below the escalator's top;
/// - `B -> C` once the bottom edge reaches the escalator's bottom;
/// - `C -> D` once the right edge reaches the escalator's right;
/// - `D -> A` once the top edge reaches the escalator's top.
pub open spec fn next_arm_at(arm: Arm, x: int, y: int, hw: int, hh: int, esc: Rect) -> Arm {
    match arm {
        Arm::A => if y - hh <= esc.top() - 4 * hh { Arm::B } else { Arm::A },
        Arm::B => if y - hh <= esc.bottom() { Arm::C } else { Arm::B },
        Arm::C => if x + hw >= esc.right() { Arm::D } else { Arm::C },
        Arm::D => if y + hh >= esc.top() { Arm::A } else { Arm::D },
    }
}

pub open spec fn next_arm_spec(arm: Arm, step: Rect, esc: Rect) -> Arm {
    next_arm_at(arm, step.center.x as int, step.center.y as int, step.half_w as int, step.half_h as int, esc)
}

pub fn next_arm(arm: Arm, step: &Rect, esc: &Rect) -> (a: Arm)
    requires
        step.wf(),
        esc.wf(),
    ensures
        a == next_arm_spec(arm, *step, *esc),
{
    match arm {
        Arm::A => {
            if step.center.y - step.half_h <= esc.center.y + esc.half_h - 4 * step.half_h {
                Arm::B
            } else {
                Arm::A
            }
        },
        Arm::B => {
            if step.center.y - step.half_h <= esc.center.y - esc.half_h {
                Arm::C
            } else {
                Arm::B
            }
        },
        Arm::C => {
            if step.center.x + step.half_w >= esc.center.x + esc.half_w {
                Arm::D
            } else {
                Arm::C
            }
        },
        Arm::D => {
            if step.center.y + step.half_h >= esc.center.y + esc.half_h {
                Arm::A
            } else {
                Arm::D
            }
        },
    }
}

/// The track coordinate runs forward by `delta` and wraps at the loop length.
pub open spec fn advance_track_spec(t: Track, delta: int) -> Track {
    Track { position: ((t.position + delta) % (t.length as int)) as i64, length: t.length }
}

pub fn advance_track(t: &Track, delta: i64) -> (r: Track)
    requires
        t.wf(),
        0 <= delta <= POS_LIMIT,
    ensures
        r == advance_track_spec(*t, delta as int),
        r.wf(),
{
    Track { position: (t.position + delta) % t.length, length: t.length }
}

/// The length of a step's track loop around an escalator of half-extent
/// `eh`, for steps of half-extent `sh`: the perimeter the arm state machine
/// walks, `2*sh` down, `2*eh - 4*sh` diagonally down-right, `2*sh` right and
/// `2*eh - 2*sh` diagonally up-left.
pub open spec fn track_loop_len(eh: int, sh: int) -> int {
    4 * eh - 2 * sh
}

/// Where on the escalator (relative to its center) the track coordinate `t`
/// places a step, for an escalator of half-extent `eh` and a step of
/// half-extent `sh`. The loop's four legs over `t` in `[0, track_loop_len)`
/// realize the four arm directions: `A` straight down at the top-left, `B`
/// diagonally down-right, `C` rightward along the bottom, `D` diagonally
/// up-left back to the start.
pub open spec fn track_offset_x(eh: int, sh: int, t: int) -> int {
    if t < 2 * sh {
        sh - eh
    } else if t < 2 * eh - 2 * sh {
        sh - eh + (t - 2 * sh)
    } else if t < 2 * eh {
        eh - 3 * sh + (t - (2 * eh - 2 * sh))
    } else {
        eh - sh - (t - 2 * eh)
    }
}

pub open spec fn track_offset_y(eh: int, sh: int, t: int) -> int {
    if t < 2 * sh {
        eh - sh - t
    } else if t < 2 * eh - 2 * sh {
        eh - 3 * sh - (t - 2 * sh)
    } else if t < 2 * eh {
        sh - eh
    } else {
        sh - eh + (t - 2 * eh)
    }
}

/// The velocity that moves a step from where it stands to where its track
/// coordinate says it should stand, saturated at the velocity cap.
pub open spec fn step_velocity_spec(esc: Rect, step: Rect, t: Track) -> Vec2i {
    let tx = esc.center.x + track_offset_x(esc.half_w as int, step.half_w as int, t.position as int);
    let ty = esc.center.y + track_offset_y(esc.half_w as int, step.half_w as int, t.position as int);
    Vec2i { x: cap_vel_spec(tx - step.center.x), y: cap_vel_spec(ty - step.center.y) }
}

/// The track-based step motion: interpolate the closed-form loop position
/// and difference it against the step's current position.
pub fn step_velocity(esc: &Rect, step: &Rect, t: &Track) -> (v: Vec2i)
    requires
        esc.wf(),
        step.wf(),
        t.wf(),
    ensures
        v == step_velocity_spec(*esc, *step, *t),
{
    let eh = esc.half_w;
    let sh = step.half_w;
    let tp = t.position;
    let off_x: i64;
    let off_y: i64;
    if tp < 2 * sh {
        off_x = sh - eh;
        off_y = eh - sh - tp;
    } else if tp < 2 * eh - 2 * sh {
        off_x = sh - eh + (tp - 2 * sh);
        off_y = eh - 3 * sh - (tp - 2 * sh);
    } else if tp < 2 * eh {
        off_x = eh - 3 * sh + (tp - (2 * eh - 2 * sh));
        off_y = sh - eh;
    } else {
        off_x = eh - sh - (tp - 2 * eh);
        off_y = sh - eh + (tp - 2 * eh);
    }
    let vx = cap_vel_wide(esc.center.x + off_x - step.center.x);
    let vy = cap_vel_wide(esc.center.y + off_y - step.center.y);
    Vec2i { x: vx, y: vy }
}

/// `cap_vel` over a value that is already known to fit `i64`.
fn cap_vel_wide(v: i64) -> (r: i64)
    ensures
        r == cap_vel_spec(v as int),
{
    cap_vel(v)
}

/// One tick of the arm state machine for an isolated square step of
/// half-extent `sh` at center `(x, y)`: the step moves one unit along its
/// arm, then transitions by the geometric rule — exactly what the tick
/// pipeline does to an unobstructed step at unit time scale.
pub open spec fn arm_cycle_tick(esc: Rect, sh: int, x: int, y: int, arm: Arm) -> (int, int, Arm) {
    let v = arm_velocity_spec(arm);
    let x1 = x + v.x;
    let y1 = y + v.y;
    (x1, y1, next_arm_at(arm, x1, y1, sh, sh, esc))
}

pub open spec fn arm_cycle_iter(esc: Rect, sh: int, x: int, y: int, arm: Arm, k: nat) -> (int, int, Arm)
    decreases k,
{
    if k == 0 {
        (x, y, arm)
    } else {
        let s = arm_cycle_tick(esc, sh, x, y, arm);
        arm_cycle_iter(esc, sh, s.0, s.1, s.2, (k - 1) as nat)
    }
}

/// The full complement of step placements for an escalator centered at `ec`
/// with half-extent `eh`, of steps with half-extent `sh`: one descending at
/// the top-left, `n - 2` on the diagonal, one entering the bottom traverse,
/// and `n - 1` on the ascending diagonal, where `n = eh / sh` — `2*n - 1`
/// steps in all, evenly spaced two step half-extents apart along the loop.
/// Slot `k` carries its starting arm and a track coordinate `k * 2 * sh` on
/// a loop of length `track_loop_len(eh, sh)`, the coordinate at which the
/// track parametrization places exactly this slot's center.
pub open spec fn step_slot(ec: Vec2i, eh: int, sh: int, k: int) -> (int, int, Arm, int) {
    let n = eh / sh;
    if k == 0 {
        (ec.x - eh + sh, ec.y + eh - sh, Arm::A, k * 2 * sh)
    } else if k <= n - 2 {
        (ec.x - eh + sh + (k - 1) * 2 * sh, ec.y + eh - 3 * sh - (k - 1) * 2 * sh, Arm::B, k * 2 * sh)
    } else if k == n - 1 {
        (ec.x + eh - 3 * sh, ec.y - eh + sh, Arm::C, k * 2 * sh)
    } else {
        (ec.x + eh - sh - (k - n) * 2 * sh, ec.y - eh + sh + (k - n) * 2 * sh, Arm::D, k * 2 * sh)
    }
}

/// Lay out the `2 * (eh / sh) - 1` steps of an escalator: for each slot its
/// center, its starting arm, and its track on the canonical loop.
pub fn steps(ec: Vec2i, eh: i64, sh: i64) -> (r: Vec<(Vec2i, Arm, Track)>)
    requires
        0 < sh <= eh <= EXTENT_LIMIT,
        eh % sh == 0,
        eh / sh >= 2,
        -POS_LIMIT <= ec.x <= POS_LIMIT,
        -POS_LIMIT <= ec.y <= POS_LIMIT,
    ensures
        r@.len() == 2 * (eh / sh) - 1,
        forall|k: int| 0 <= k < r@.len() ==> {
            let (x, y, arm, tp) = step_slot(ec, eh as int, sh as int, k);
            #[trigger] r@[k] == (
                Vec2i { x: x as i64, y: y as i64 },
                arm,
                Track { position: tp as i64, length: (4 * eh - 2 * sh) as i64 },
            )
        },
        forall|k: int| 0 <= k < r@.len() ==> (#[trigger] r@[k]).2.wf()
            && (r@[k]).2.length == track_loop_len(eh as int, sh as int),
{
    let n = eh / sh;
    proof {
        vstd::arithmetic::div_mod::lemma_fundamental_div_mod(eh as int, sh as int);
        assert(n * sh == eh);
        assert(2 * n <= 2 * EXTENT_LIMIT) by (nonlinear_arith)
            requires n * sh == eh, sh >= 1, eh <= EXTENT_LIMIT, n >= 2;
    }
    let loop_len = 4 * eh - 2 * sh;
    let count = 2 * n - 1;
    let mut r: Vec<(Vec2i, Arm, Track)> = Vec::new();
    let mut k: i64 = 0;
    while k < count
        invariant
            0 < sh <= eh <= EXTENT_LIMIT,
            -POS_LIMIT <= ec.x <= POS_LIMIT,
            -POS_LIMIT <= ec.y <= POS_LIMIT,
            n == eh / sh,
            n * sh == eh,
            2 <= n,
            count == 2 * n - 1,
            loop_len == 4 * eh - 2 * sh,
            0 <= k <= count,
            r@.len() == k,
            forall|kk: int| 0 <= kk < k ==> {
                let (x, y, arm, tp) = step_slot(ec, eh as int, sh as int, kk);
                #[trigger] r@[kk] == (
                    Vec2i { x: x as i64, y: y as i64 },
                    arm,
                    Track { position: tp as i64, length: loop_len },
                )
            },
            forall|kk: int| 0 <= kk < k ==> (#[trigger] r@[kk]).2.wf()
                && (r@[kk]).2.length == track_loop_len(eh as int, sh as int),
        decreases count - k,
    {
        proof {
            assert(0 <= k * 2 * sh <= 4 * eh - 4 * sh) by (nonlinear_arith)
                requires 0 <= k <= 2 * n - 2, n * sh == eh, sh >= 1;
        }
        let tp = k * 2 * sh;
        let track = Track { position: tp, length: loop_len };
        let slot: (Vec2i, Arm, Track);
        if k == 0 {
            slot = (Vec2i { x: ec.x - eh + sh, y: ec.y + eh - sh }, Arm::A, track);
        } else if k <= n - 2 {
            proof {
                assert(0 <= (k - 1) * 2 * sh <= 2 * eh) by (nonlinear_arith)
                    requires 1 <= k <= n, n * sh == eh, sh >= 1;
            }
            let d = (k - 1) * 2 * sh;
            slot = (Vec2i { x: ec.x - eh + sh + d, y: ec.y + eh - 3 * sh - d }, Arm::B, track);
        } else if k == n - 1 {
            slot = (Vec2i { x: ec.x + eh - 3 * sh, y: ec.y - eh + sh }, Arm::C, track);
        } else {
            proof {
                assert(0 <= (k - n) * 2 * sh <= 2 * eh) by (nonlinear_arith)
                    requires n <= k < 2 * n, n * sh == eh, sh >= 1;
            }
            let d = (k - n) * 2 * sh;
            slot = (Vec2i { x: ec.x + eh - sh - d, y: ec.y - eh + sh + d }, Arm::D, track);
        }
        r.push(slot);

        k = k + 1;
    }
    r
}

} // verus!
