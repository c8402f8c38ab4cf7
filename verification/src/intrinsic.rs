//! Intrinsic velocity assignment: the per-role rules that give each body its
//! desired velocity before propagation. Three independent rules: gravity for
//! unsupported bodies, arm- or track-driven motion for steps, input-driven
//! motion for the player. A body the rules leave alone keeps `None` and is
//! not moved this tick.

use vstd::prelude::*;
use crate::geom::{Vec2i, vel2_ok};
use crate::body::{Body, Role, World};
use crate::graph::{AdjacencyGraph, bottom_rows, rows_view};
use crate::stepper::{arm_velocity, arm_velocity_spec, step_velocity, step_velocity_spec};

verus! {

/// The pressed movement keys, handed in by the frame driver each tick.
#[derive(Clone, Copy, PartialEq, Eq, Structural, Debug)]
pub struct PlayerInput {
    pub left: bool,
    pub right: bool,
}

/// Which step placement strategy drives step motion this tick: the arm state
/// machine, or the closed-form track parametrization (a step without a track
/// coordinate falls back to its arm).
#[derive(Clone, Copy, PartialEq, Eq, Structural, Debug)]
pub enum StepPlan {
    ByArm,
    ByTrack,
}

/// Net horizontal input: `-1` for left, `+1` for right, `0` for both or
/// neither.
pub open spec fn input_x(inp: PlayerInput) -> int {
    (if inp.right { 1int } else { 0int }) - (if inp.left { 1int } else { 0int })
}

/// A body is supported when it has at least one entry in `bottoms`.
pub open spec fn supported(bottoms: Seq<Seq<usize>>, i: int) -> bool {
    bottoms[i].len() > 0
}

/// Gravity: an unsupported body desires to fall one unit; a supported one
/// desires to stand still (so that a grounded body resolves to an explicit
/// standstill rather than staying untouched).
pub open spec fn falling_velocity_spec(is_supported: bool) -> Vec2i {
    if is_supported {
        Vec2i { x: 0i64, y: 0i64 }
    } else {
        Vec2i { x: 0i64, y: -1i64 }
    }
}

pub fn falling_velocity(is_supported: bool) -> (v: Vec2i)
    ensures
        v == falling_velocity_spec(is_supported),
{
    if is_supported {
        Vec2i { x: 0, y: 0 }
    } else {
        Vec2i { x: 0, y: -1 }
    }
}

/// Player motion: the net key contribution horizontally; vertically still
/// when supported, falling when not.
pub open spec fn player_velocity_spec(inp: PlayerInput, is_supported: bool) -> Vec2i {
    Vec2i { x: input_x(inp) as i64, y: if is_supported { 0i64 } else { -1i64 } }
}

pub fn player_velocity(inp: PlayerInput, is_supported: bool) -> (v: Vec2i)
    ensures
        v == player_velocity_spec(inp, is_supported),
{
    let mut x: i64 = 0;
    if inp.left {
        x = x - 1;
    }
    if inp.right {
        x = x + 1;
    }
    Vec2i { x, y: if is_supported { 0 } else { -1 } }
}

/// The intrinsic velocity of body `i`: `None` for ground, the player rule
/// for the player, the step rule (by the chosen plan) for steps, gravity for
/// everything else.
pub open spec fn intrinsic_of(
    bodies: Seq<Body>,
    bottoms: Seq<Seq<usize>>,
    i: int,
    inp: PlayerInput,
    plan: StepPlan,
) -> Option<Vec2i> {
    match bodies[i].role {
        Role::Ground => None,
        Role::Player => Some(player_velocity_spec(inp, supported(bottoms, i))),
        Role::Step { escalator, arm, track } => match plan {
            StepPlan::ByArm => Some(arm_velocity_spec(arm)),
            StepPlan::ByTrack => match track {
                Some(t) => Some(step_velocity_spec(bodies[escalator as int].rect, bodies[i].rect, t)),
                None => Some(arm_velocity_spec(arm)),
            },
        },
        _ => Some(falling_velocity_spec(supported(bottoms, i))),
    }
}

/// Every assigned intrinsic velocity is a unit step per axis or a capped
/// track correction, so it is in range.
pub proof fn lemma_intrinsic_vel_ok(
    bodies: Seq<Body>,
    bottoms: Seq<Seq<usize>>,
    i: int,
    inp: PlayerInput,
    plan: StepPlan,
)
    ensures
        intrinsic_of(bodies, bottoms, i, inp, plan) matches Some(v) ==> vel2_ok(v),
{
}

/// Assign every body its intrinsic velocity for this tick.
pub fn assign_intrinsics(world: &World, g: &AdjacencyGraph, inp: PlayerInput, plan: StepPlan) -> (ivs: Vec<
    Option<Vec2i>,
>)
    requires
        world.wf(),
        g.wf(world.n()),
        rows_view(g.bottoms@) == bottom_rows(world.bodies@),
    ensures
        ivs@.len() == world.n(),
        forall|i: int| 0 <= i < world.n() ==> ivs@[i] == intrinsic_of(
            world.bodies@,
            rows_view(g.bottoms@),
            i,
            inp,
            plan,
        ),
{
    let n = world.bodies.len();
    let mut ivs: Vec<Option<Vec2i>> = Vec::new();
    let mut i: usize = 0;
    while i < n
        invariant
            world.wf(),
            g.wf(world.n()),
            n == world.n(),
            i <= n,
            ivs@.len() == i,
            forall|ii: int| 0 <= ii < i ==> ivs@[ii] == intrinsic_of(
                world.bodies@,
                rows_view(g.bottoms@),
                ii,
                inp,
                plan,
            ),
        decreases n - i,
    {
        let b = &world.bodies[i];
        let is_supported = g.bottoms[i].len() > 0;
        proof {
            assert(rows_view(g.bottoms@)[i as int] == g.bottoms@[i as int]@);
        }
        let iv: Option<Vec2i> = match b.role {
            Role::Ground => None,
            Role::Player => Some(player_velocity(inp, is_supported)),
            Role::Step { escalator, arm, track } => match plan {
                StepPlan::ByArm => Some(arm_velocity(arm)),
                StepPlan::ByTrack => match track {
                    Some(t) => Some(
                        step_velocity(&world.bodies[escalator].rect, &world.bodies[i].rect, &t),
                    ),
                    None => Some(arm_velocity(arm)),
                },
            },
            _ => Some(falling_velocity(is_supported)),
        };
        ivs.push(iv);
        i = i + 1;
    }
    ivs
}

} // verus!
