//! One simulation tick: build the adjacency graph, assign intrinsic
//! velocities, propagate them (escalators and other non-steps first, then
//! steps, so a step finds its escalator already resolved), write the
//! resolved velocities back, integrate positions, and advance each step's
//! arm and track.
//!
//! All propagation bookkeeping (the visited set, the per-body records, the
//! visit counts) is tick-scoped: created fresh here and discarded; the graph
//! is threaded in as an explicit value, never ambient state.

use vstd::prelude::*;
use crate::geom::{Rect, Vec2i, vel2_ok, cap_pos, cap_pos_spec, SCALE_LIMIT, VEL_LIMIT};
use crate::body::{Body, Role, World, steps_linked, all_wf};
use crate::graph::{
    AdjacencyGraph, build_graph, rows_view, left_rows, right_rows, top_rows, bottom_rows, is_step,
};
use crate::intrinsic::{PlayerInput, StepPlan, intrinsic_of, assign_intrinsics, lemma_intrinsic_vel_ok};
use crate::propagate::{
    Propagation, all_prop_wf, final_velocity, velocity_of, propagate, propagate_spec, sat_inc,
};
use crate::stepper::{next_arm, next_arm_spec, advance_track, advance_track_spec};

verus! {

// ------------------------------------------------------------------
// The two propagation passes.

/// Run `propagate` for every body from `k` on that has an intrinsic velocity
/// and is (when `steps_pass`) or is not (otherwise) a step.
pub open spec fn pass_from(
    bodies: Seq<Body>,
    lefts: Seq<Seq<usize>>,
    rights: Seq<Seq<usize>>,
    tops: Seq<Seq<usize>>,
    bottoms: Seq<Seq<usize>>,
    ivs: Seq<Option<Vec2i>>,
    steps_pass: bool,
    k: int,
    st: (Seq<Propagation>, Seq<bool>, Seq<u32>),
    fuel: nat,
) -> (Seq<Propagation>, Seq<bool>, Seq<u32>)
    decreases bodies.len() - k,
{
    if !(0 <= k < bodies.len()) {
        st
    } else {
        let st1 = if (bodies[k].role is Step) == steps_pass {
            match ivs[k] {
                Some(iv) => propagate_spec(
                    bodies,
                    lefts,
                    rights,
                    tops,
                    bottoms,
                    k,
                    iv,
                    st.0,
                    st.1,
                    st.2,
                    fuel,
                ),
                None => st,
            }
        } else {
            st
        };
        pass_from(bodies, lefts, rights, tops, bottoms, ivs, steps_pass, k + 1, st1, fuel)
    }
}

/// The fresh per-tick state: empty records, nothing visited, zero counts.
pub open spec fn init_results(n: nat) -> Seq<Propagation> {
    Seq::new(n, |i: int| Propagation::empty_spec())
}

pub open spec fn init_visited(n: nat) -> Seq<bool> {
    Seq::new(n, |i: int| false)
}

pub open spec fn init_counts(n: nat) -> Seq<u32> {
    Seq::new(n, |i: int| 0u32)
}

/// Both passes from a fresh tick state, with the body count as chain budget.
pub open spec fn run_propagation_spec(
    bodies: Seq<Body>,
    lefts: Seq<Seq<usize>>,
    rights: Seq<Seq<usize>>,
    tops: Seq<Seq<usize>>,
    bottoms: Seq<Seq<usize>>,
    ivs: Seq<Option<Vec2i>>,
) -> (Seq<Propagation>, Seq<bool>, Seq<u32>) {
    let n = bodies.len();
    let st0 = (init_results(n), init_visited(n), init_counts(n));
    let st1 = pass_from(bodies, lefts, rights, tops, bottoms, ivs, false, 0, st0, n);
    pass_from(bodies, lefts, rights, tops, bottoms, ivs, true, 0, st1, n)
}

/// Each body has been resolved exactly as often as it has been visited.
pub open spec fn counts_match(visited: Seq<bool>, counts: Seq<u32>) -> bool {
    &&& visited.len() == counts.len()
    &&& forall|i: int|
        0 <= i < counts.len() ==> #[trigger] counts[i] == (if visited[i] {
            1u32
        } else {
            0u32
        })
}

/// `propagate` keeps visit counts in step with the visited set: a body is
/// counted the one time it flips from unvisited to visited, and never again.
pub proof fn lemma_propagate_counts(
    bodies: Seq<Body>,
    lefts: Seq<Seq<usize>>,
    rights: Seq<Seq<usize>>,
    tops: Seq<Seq<usize>>,
    bottoms: Seq<Seq<usize>>,
    e: int,
    iv: Vec2i,
    results: Seq<Propagation>,
    visited: Seq<bool>,
    counts: Seq<u32>,
    fuel: nat,
)
    requires
        counts_match(visited, counts),
        counts.len() == bodies.len(),
    ensures
        counts_match(
            propagate_spec(bodies, lefts, rights, tops, bottoms, e, iv, results, visited, counts, fuel).1,
            propagate_spec(bodies, lefts, rights, tops, bottoms, e, iv, results, visited, counts, fuel).2,
        ),
{
    let out = propagate_spec(bodies, lefts, rights, tops, bottoms, e, iv, results, visited, counts, fuel);
    if 0 <= e < bodies.len() && !(bodies[e].role is Ground) && !visited[e] {
        assert(counts[e] == 0);
        assert(out.1 == visited.update(e, true));
        assert(out.2 == counts.update(e, sat_inc(counts[e])));
    }
}

/// Run both propagation passes over the whole store and hand back the
/// records and the instrumented visit counts; no body is resolved more than
/// once per tick.
pub fn run_propagation(world: &World, g: &AdjacencyGraph, ivs: &Vec<Option<Vec2i>>) -> (out: (
    Vec<Propagation>,
    Vec<u32>,
))
    requires
        world.wf(),
        g.wf(world.n()),
        ivs@.len() == world.n(),
        forall|i: int| 0 <= i < world.n() ==> (#[trigger] ivs@[i] matches Some(v) ==> vel2_ok(v)),
    ensures
        out.0@ == run_propagation_spec(
            world.bodies@,
            rows_view(g.lefts@),
            rows_view(g.rights@),
            rows_view(g.tops@),
            rows_view(g.bottoms@),
            ivs@,
        ).0,
        out.1@ == run_propagation_spec(
            world.bodies@,
            rows_view(g.lefts@),
            rows_view(g.rights@),
            rows_view(g.tops@),
            rows_view(g.bottoms@),
            ivs@,
        ).2,
        out.0@.len() == world.n(),
        out.1@.len() == world.n(),
        all_prop_wf(out.0@),
        forall|i: int| 0 <= i < out.1@.len() ==> #[trigger] out.1@[i] <= 1,
{
    let n = world.bodies.len();
    let ghost lrows = rows_view(g.lefts@);
    let ghost rrows = rows_view(g.rights@);
    let ghost trows = rows_view(g.tops@);
    let ghost brows = rows_view(g.bottoms@);
    let mut results: Vec<Propagation> = Vec::new();
    let mut visited: Vec<bool> = Vec::new();
    let mut counts: Vec<u32> = Vec::new();
    let mut i: usize = 0;
    while i < n
        invariant
            i <= n,
            results@.len() == i,
            visited@.len() == i,
            counts@.len() == i,
            forall|j: int| 0 <= j < i ==> results@[j] == Propagation::empty_spec(),
            forall|j: int| 0 <= j < i ==> visited@[j] == false,
            forall|j: int| 0 <= j < i ==> counts@[j] == 0u32,
        decreases n - i,
    {
        results.push(Propagation::empty());
        visited.push(false);
        counts.push(0);
        i = i + 1;
    }
    proof {
        assert(results@ =~= init_results(n as nat));
        assert(visited@ =~= init_visited(n as nat));
        assert(counts@ =~= init_counts(n as nat));
    }
    let ghost st0 = (results@, visited@, counts@);
    let ghost total1 = pass_from(world.bodies@, lrows, rrows, trows, brows, ivs@, false, 0, st0, n as nat);
    let mut k: usize = 0;
    while k < n
        invariant
            world.wf(),
            g.wf(world.n()),
            n == world.n(),
            ivs@.len() == n,
            forall|j: int| 0 <= j < world.n() ==> (#[trigger] ivs@[j] matches Some(v) ==> vel2_ok(v)),
            lrows == rows_view(g.lefts@),
            rrows == rows_view(g.rights@),
            trows == rows_view(g.tops@),
            brows == rows_view(g.bottoms@),
            k <= n,
            results@.len() == n,
            visited@.len() == n,
            counts@.len() == n,
            all_prop_wf(results@),
            counts_match(visited@, counts@),
            pass_from(world.bodies@, lrows, rrows, trows, brows, ivs@, false, k as int, (results@, visited@, counts@), n as nat)
                == total1,
        decreases n - k,
    {
        let stp = is_step(&world.bodies[k]);
        if !stp {
            if let Some(iv) = ivs[k] {
                proof {
                    lemma_propagate_counts(
                        world.bodies@, lrows, rrows, trows, brows,
                        k as int, iv, results@, visited@, counts@, n as nat,
                    );
                }
                propagate(
                    &world.bodies, &g.lefts, &g.rights, &g.tops, &g.bottoms,
                    k, iv, &mut results, &mut visited, &mut counts, n,
                );
            }
        }
        k = k + 1;
    }
    assert((results@, visited@, counts@) == total1);
    let ghost total2 = pass_from(world.bodies@, lrows, rrows, trows, brows, ivs@, true, 0, total1, n as nat);
    let mut k2: usize = 0;
    while k2 < n
        invariant
            world.wf(),
            g.wf(world.n()),
            n == world.n(),
            ivs@.len() == n,
            forall|j: int| 0 <= j < world.n() ==> (#[trigger] ivs@[j] matches Some(v) ==> vel2_ok(v)),
            lrows == rows_view(g.lefts@),
            rrows == rows_view(g.rights@),
            trows == rows_view(g.tops@),
            brows == rows_view(g.bottoms@),
            k2 <= n,
            results@.len() == n,
            visited@.len() == n,
            counts@.len() == n,
            all_prop_wf(results@),
            counts_match(visited@, counts@),
            pass_from(world.bodies@, lrows, rrows, trows, brows, ivs@, true, k2 as int, (results@, visited@, counts@), n as nat)
                == total2,
        decreases n - k2,
    {
        let stp = is_step(&world.bodies[k2]);
        if stp {
            if let Some(iv) = ivs[k2] {
                proof {
                    lemma_propagate_counts(
                        world.bodies@, lrows, rrows, trows, brows,
                        k2 as int, iv, results@, visited@, counts@, n as nat,
                    );
                }
                propagate(
                    &world.bodies, &g.lefts, &g.rights, &g.tops, &g.bottoms,
                    k2, iv, &mut results, &mut visited, &mut counts, n,
                );
            }
        }
        k2 = k2 + 1;
    }
    assert((results@, visited@, counts@) == total2);
    (results, counts)
}

// ------------------------------------------------------------------
// Write-back, integration, step updates.

/// Commit the resolved records: every body's velocity becomes what its
/// record resolves to, `None` where nothing touched it.
pub open spec fn write_back_spec(bodies: Seq<Body>, results: Seq<Propagation>) -> Seq<Body> {
    Seq::new(
        bodies.len(),
        |i: int| Body { rect: bodies[i].rect, role: bodies[i].role, velocity: final_velocity(results[i]) },
    )
}

pub fn write_back(world: &mut World, results: &Vec<Propagation>)
    requires
        old(world).wf(),
        results@.len() == old(world).n(),
        all_prop_wf(results@),
    ensures
        final(world).wf(),
        final(world).bodies@ == write_back_spec(old(world).bodies@, results@),
{
    let n = world.bodies.len();
    let mut i: usize = 0;
    while i < n
        invariant
            n == world.n(),
            results@.len() == n,
            all_prop_wf(results@),
            i <= n,
            old(world).wf(),
            old(world).bodies@.len() == n,
            world.bodies@.len() == n,
            forall|j: int| i <= j < n ==> world.bodies@[j] == old(world).bodies@[j],
            forall|j: int| 0 <= j < i ==> world.bodies@[j] == write_back_spec(old(world).bodies@, results@)[j],
        decreases n - i,
    {
        let v = velocity_of(&results[i]);
        let mut b = world.bodies[i];
        b.velocity = v;
        world.bodies.set(i, b);
        i = i + 1;
    }
    proof {
        assert(world.bodies@ =~= write_back_spec(old(world).bodies@, results@));
        assert forall|j: int| 0 <= j < world.bodies@.len() implies (#[trigger] world.bodies@[j]).wf() by {
            assert(old(world).bodies@[j].wf());
        }
        assert(steps_linked(world.bodies@)) by {
            assert forall|j: int|
                0 <= j < world.bodies@.len() && (#[trigger] world.bodies@[j].role matches Role::Step { .. })
                implies (world.bodies@[j].role matches Role::Step { escalator, .. }
                    ==> escalator < world.bodies@.len()
                        && world.bodies@[escalator as int].role is Escalator) by {
                assert(world.bodies@[j].role == old(world).bodies@[j].role);
            }
        }
    }
}

/// The integrator: a resolved body moves by its velocity times the time
/// scale, saturating at the world edge; an untouched body does not move.
pub open spec fn integrate_body(b: Body, scale: i64) -> Body {
    match b.velocity {
        None => b,
        Some(v) => Body {
            rect: Rect {
                center: Vec2i {
                    x: cap_pos_spec(b.rect.center.x + v.x * scale),
                    y: cap_pos_spec(b.rect.center.y + v.y * scale),
                },
                half_w: b.rect.half_w,
                half_h: b.rect.half_h,
            },
            role: b.role,
            velocity: b.velocity,
        },
    }
}

pub open spec fn integrate_all(bodies: Seq<Body>, scale: i64) -> Seq<Body> {
    Seq::new(bodies.len(), |i: int| integrate_body(bodies[i], scale))
}

pub fn update_position(world: &mut World, scale: i64)
    requires
        old(world).wf(),
        0 < scale <= SCALE_LIMIT,
    ensures
        final(world).wf(),
        final(world).bodies@ == integrate_all(old(world).bodies@, scale),
{
    let n = world.bodies.len();
    let mut i: usize = 0;
    while i < n
        invariant
            n == world.n(),
            0 < scale <= SCALE_LIMIT,
            i <= n,
            old(world).wf(),
            old(world).bodies@.len() == n,
            world.bodies@.len() == n,
            forall|j: int| i <= j < n ==> world.bodies@[j] == old(world).bodies@[j],
            forall|j: int| 0 <= j < i ==> world.bodies@[j] == integrate_all(old(world).bodies@, scale)[j],
        decreases n - i,
    {
        let b = world.bodies[i];
        if let Some(v) = b.velocity {
            proof {
                assert(old(world).bodies@[i as int].wf());
                assert(-VEL_LIMIT * SCALE_LIMIT <= v.x * scale <= VEL_LIMIT * SCALE_LIMIT)
                    by (nonlinear_arith)
                    requires -VEL_LIMIT <= v.x <= VEL_LIMIT, 0 < scale <= SCALE_LIMIT;
                assert(-VEL_LIMIT * SCALE_LIMIT <= v.y * scale <= VEL_LIMIT * SCALE_LIMIT)
                    by (nonlinear_arith)
                    requires -VEL_LIMIT <= v.y <= VEL_LIMIT, 0 < scale <= SCALE_LIMIT;
            }
            let nx = cap_pos(b.rect.center.x + v.x * scale);
            let ny = cap_pos(b.rect.center.y + v.y * scale);
            let nb = Body {
                rect: Rect { center: Vec2i { x: nx, y: ny }, half_w: b.rect.half_w, half_h: b.rect.half_h },
                role: b.role,
                velocity: b.velocity,
            };
            world.bodies.set(i, nb);
        }
        i = i + 1;
    }
    proof {
        assert(world.bodies@ =~= integrate_all(old(world).bodies@, scale));
        assert forall|j: int| 0 <= j < world.bodies@.len() implies (#[trigger] world.bodies@[j]).wf() by {
            assert(old(world).bodies@[j].wf());
        }
        assert(steps_linked(world.bodies@)) by {
            assert forall|j: int|
                0 <= j < world.bodies@.len() && (#[trigger] world.bodies@[j].role matches Role::Step { .. })
                implies (world.bodies@[j].role matches Role::Step { escalator, .. }
                    ==> escalator < world.bodies@.len()
                        && world.bodies@[escalator as int].role is Escalator) by {
                assert(world.bodies@[j].role == old(world).bodies@[j].role);
            }
        }
    }
}

/// After integration every step advances its arm by the geometric transition
/// rule against its escalator's (post-integration) extents, and its track
/// coordinate by the time scale.
pub open spec fn step_update(bodies: Seq<Body>, scale: i64, i: int) -> Body {
    match bodies[i].role {
        Role::Step { escalator, arm, track } => Body {
            rect: bodies[i].rect,
            role: Role::Step {
                escalator,
                arm: next_arm_spec(arm, bodies[i].rect, bodies[escalator as int].rect),
                track: match track {
                    None => None,
                    Some(t) => Some(advance_track_spec(t, scale as int)),
                },
            },
            velocity: bodies[i].velocity,
        },
        _ => bodies[i],
    }
}

pub open spec fn update_steps_spec(bodies: Seq<Body>, scale: i64) -> Seq<Body> {
    Seq::new(bodies.len(), |i: int| step_update(bodies, scale, i))
}

pub fn update_steps(world: &mut World, scale: i64)
    requires
        old(world).wf(),
        0 < scale <= SCALE_LIMIT,
    ensures
        final(world).wf(),
        final(world).bodies@ == update_steps_spec(old(world).bodies@, scale),
{
    let n = world.bodies.len();
    let mut i: usize = 0;
    while i < n
        invariant
            n == world.n(),
            0 < scale <= SCALE_LIMIT,
            i <= n,
            old(world).wf(),
            old(world).bodies@.len() == n,
            world.bodies@.len() == n,
            forall|j: int| i <= j < n ==> world.bodies@[j] == old(world).bodies@[j],
            forall|j: int| 0 <= j < i ==> world.bodies@[j] == update_steps_spec(old(world).bodies@, scale)[j],
            forall|j: int| 0 <= j < n ==> (#[trigger] world.bodies@[j]).rect == old(world).bodies@[j].rect
                && world.bodies@[j].role is Step == old(world).bodies@[j].role is Step,
        decreases n - i,
    {
        let b = world.bodies[i];
        match b.role {
            Role::Step { escalator, arm, track } => {
                proof {
                    assert(old(world).bodies@[i as int].wf());
                    assert(old(world).bodies@[i as int] == b);
                    assert(escalator < n && old(world).bodies@[escalator as int].role is Escalator);
                    assert(world.bodies@[escalator as int].rect == old(world).bodies@[escalator as int].rect);
                    assert(old(world).bodies@[escalator as int].wf());
                }
                let esc_rect = world.bodies[escalator].rect;
                let new_arm = next_arm(arm, &b.rect, &esc_rect);
                let new_track = match track {
                    None => None,
                    Some(t) => Some(advance_track(&t, scale)),
                };
                let nb = Body {
                    rect: b.rect,
                    role: Role::Step { escalator, arm: new_arm, track: new_track },
                    velocity: b.velocity,
                };
                world.bodies.set(i, nb);
            },
            _ => {},
        }
        i = i + 1;
    }
    proof {
        assert(world.bodies@ =~= update_steps_spec(old(world).bodies@, scale));
        assert forall|j: int| 0 <= j < world.bodies@.len() implies (#[trigger] world.bodies@[j]).wf() by {
            assert(old(world).bodies@[j].wf());
        }
        assert(steps_linked(world.bodies@)) by {
            assert forall|j: int|
                0 <= j < world.bodies@.len() && (#[trigger] world.bodies@[j].role matches Role::Step { .. })
                implies (world.bodies@[j].role matches Role::Step { escalator, .. }
                    ==> escalator < world.bodies@.len()
                        && world.bodies@[escalator as int].role is Escalator) by {
                match old(world).bodies@[j].role {
                    Role::Step { escalator: e0, .. } => {
                        assert(world.bodies@[e0 as int].role == old(world).bodies@[e0 as int].role);
                    },
                    _ => {},
                }
            }
        }
    }
}

/// Clear every body's velocity to the unresolved state.
pub open spec fn reset_velocity_spec(bodies: Seq<Body>) -> Seq<Body> {
    Seq::new(bodies.len(), |i: int| Body { rect: bodies[i].rect, role: bodies[i].role, velocity: None })
}

pub fn reset_velocity(world: &mut World)
    requires
        old(world).wf(),
    ensures
        final(world).wf(),
        final(world).bodies@ == reset_velocity_spec(old(world).bodies@),
{
    let n = world.bodies.len();
    let mut i: usize = 0;
    while i < n
        invariant
            n == world.n(),
            i <= n,
            old(world).wf(),
            old(world).bodies@.len() == n,
            world.bodies@.len() == n,
            forall|j: int| i <= j < n ==> world.bodies@[j] == old(world).bodies@[j],
            forall|j: int| 0 <= j < i ==> world.bodies@[j] == reset_velocity_spec(old(world).bodies@)[j],
        decreases n - i,
    {
        let mut b = world.bodies[i];
        b.velocity = None;
        world.bodies.set(i, b);
        i = i + 1;
    }
    proof {
        assert(world.bodies@ =~= reset_velocity_spec(old(world).bodies@));
        assert forall|j: int| 0 <= j < world.bodies@.len() implies (#[trigger] world.bodies@[j]).wf() by {
            assert(old(world).bodies@[j].wf());
        }
        assert(steps_linked(world.bodies@)) by {
            assert forall|j: int|
                0 <= j < world.bodies@.len() && (#[trigger] world.bodies@[j].role matches Role::Step { .. })
                implies (world.bodies@[j].role matches Role::Step { escalator, .. }
                    ==> escalator < world.bodies@.len()
                        && world.bodies@[escalator as int].role is Escalator) by {
                assert(world.bodies@[j].role == old(world).bodies@[j].role);
            }
        }
    }
}

// ------------------------------------------------------------------
// The whole tick.

/// The intrinsic velocities of the whole store.
pub open spec fn intrinsics_of(bodies: Seq<Body>, inp: PlayerInput, plan: StepPlan) -> Seq<
    Option<Vec2i>,
> {
    Seq::new(bodies.len(), |i: int| intrinsic_of(bodies, bottom_rows(bodies), i, inp, plan))
}

/// What one tick makes of the body store.
pub open spec fn tick_spec(bodies: Seq<Body>, inp: PlayerInput, plan: StepPlan, scale: i64) -> Seq<Body> {
    let st = run_propagation_spec(
        bodies,
        left_rows(bodies),
        right_rows(bodies),
        top_rows(bodies),
        bottom_rows(bodies),
        intrinsics_of(bodies, inp, plan),
    );
    let bodies1 = write_back_spec(bodies, st.0);
    let bodies2 = integrate_all(bodies1, scale);
    update_steps_spec(bodies2, scale)
}

/// The visit counts one tick's propagation produces.
pub open spec fn tick_counts_spec(bodies: Seq<Body>, inp: PlayerInput, plan: StepPlan) -> Seq<u32> {
    run_propagation_spec(
        bodies,
        left_rows(bodies),
        right_rows(bodies),
        top_rows(bodies),
        bottom_rows(bodies),
        intrinsics_of(bodies, inp, plan),
    ).2
}

/// Advance the world by one tick and hand back the instrumented visit
/// counts: no body is resolved more than once per tick, however dense the
/// contact graph.
pub fn tick(world: &mut World, inp: PlayerInput, plan: StepPlan, scale: i64) -> (counts: Vec<u32>)
    requires
        old(world).wf(),
        0 < scale <= SCALE_LIMIT,
    ensures
        final(world).wf(),
        final(world).bodies@ == tick_spec(old(world).bodies@, inp, plan, scale),
        counts@ == tick_counts_spec(old(world).bodies@, inp, plan),
        counts@.len() == old(world).n(),
        forall|i: int| 0 <= i < counts@.len() ==> #[trigger] counts@[i] <= 1,
{
    let g = build_graph(world);
    let ivs = assign_intrinsics(world, &g, inp, plan);
    proof {
        assert forall|i: int| 0 <= i < world.n() implies (#[trigger] ivs@[i] matches Some(v) ==> vel2_ok(v)) by {
            lemma_intrinsic_vel_ok(world.bodies@, rows_view(g.bottoms@), i, inp, plan);
        }
        assert(ivs@ =~= intrinsics_of(world.bodies@, inp, plan));
    }
    let (results, counts) = run_propagation(world, &g, &ivs);
    write_back(world, &results);
    update_position(world, scale);
    update_steps(world, scale);
    counts
}

} // verus!
