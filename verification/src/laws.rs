//! Laws of the propagation engine, stated and proved against the same spec
//! functions the executable contracts use.

use vstd::prelude::*;
use crate::geom::{Rect, Vec2i, vel2_ok, cap_pos_spec, SCALE_LIMIT, VEL_LIMIT};
use crate::body::{Arm, Body, Role, Track, all_wf};
use crate::graph::{
    left_edge, right_edge, top_edge, left_rows, right_rows, top_rows, bottom_rows,
    lemma_top_row_has, row_has,
};
use crate::intrinsic::{PlayerInput, StepPlan, intrinsic_of};
use crate::propagate::{
    Propagation, final_velocity, x_push_spec, push_list_spec, carry_spec, carry_list_spec,
    propagate_spec, blocked_down_spec, any_down_from,
};
use crate::stepper::{
    arm_cycle_tick, arm_cycle_iter, advance_track_spec, track_offset_x, track_offset_y,
    track_loop_len, step_slot, step_velocity_spec, arm_velocity_spec,
};
use crate::tick::{
    tick_spec, pass_from, run_propagation_spec, write_back_spec, integrate_all, update_steps_spec,
    integrate_body, init_results, init_visited, init_counts, intrinsics_of,
};

verus! {

// ------------------------------------------------------------------
// Carried motion passes through whole.

/// A rider whose record holds nothing but a standstill intrinsic and one
/// carry resolves to exactly that carry: when the carrier is the sole
/// support and nothing else touches the rider, carrying is a full vector
/// copy.
pub proof fn lemma_carry_is_copied(v: Vec2i)
    requires
        vel2_ok(v),
    ensures
        final_velocity(
            Propagation {
                left_x_bound: None,
                right_x_bound: None,
                push: None,
                carry: Some(v),
                intrinsic: Some(Vec2i { x: 0i64, y: 0i64 }),
            },
        ) == Some(v),
{
}

// ------------------------------------------------------------------
// Horizontal and vertical resolution are independent.

/// Pushing writes only the horizontal fields: however a push cascades, no
/// record's carry or intrinsic changes, so a body's vertical motion is
/// untouched by any amount of horizontal shoving.
pub proof fn lemma_push_keeps_vertical(
    bodies: Seq<Body>,
    lefts: Seq<Seq<usize>>,
    rights: Seq<Seq<usize>>,
    e: int,
    pv: i64,
    results: Seq<Propagation>,
    fuel: nat,
)
    requires
        results.len() == bodies.len(),
    ensures
        x_push_spec(bodies, lefts, rights, e, pv, results, fuel).len() == results.len(),
        forall|j: int| 0 <= j < results.len() ==> {
            let out = #[trigger] x_push_spec(bodies, lefts, rights, e, pv, results, fuel)[j];
            out.carry == results[j].carry && out.intrinsic == results[j].intrinsic
        },
    decreases fuel, 0int,
{
    if fuel == 0 || !(0 <= e < bodies.len()) || bodies[e].role is Ground || pv == 0 {
    } else {
        let lb = if pv < 0 {
            crate::propagate::left_bound_from(bodies, lefts, lefts[e], 0, fuel)
        } else {
            None
        };
        let rb = if pv > 0 {
            crate::propagate::right_bound_from(bodies, rights, rights[e], 0, fuel)
        } else {
            None
        };
        let pv1 = crate::propagate::clamp_hi(crate::propagate::clamp_lo(pv, lb), rb);
        let rec = results[e];
        let rec1 = Propagation {
            left_x_bound: if pv < 0 {
                crate::propagate::opt_bound_max_spec(rec.left_x_bound, lb)
            } else {
                rec.left_x_bound
            },
            right_x_bound: if pv > 0 {
                crate::propagate::opt_bound_min_spec(rec.right_x_bound, rb)
            } else {
                rec.right_x_bound
            },
            push: crate::propagate::push_combine(rec.push, pv1),
            carry: rec.carry,
            intrinsic: rec.intrinsic,
        };
        let results1 = results.update(e, rec1);
        if bodies[e].is_active() && pv1 != 0 {
            if pv1 < 0 {
                lemma_push_list_keeps_vertical(bodies, lefts, rights, lefts[e], 0, pv1, results1, (fuel - 1) as nat);
            } else {
                lemma_push_list_keeps_vertical(bodies, lefts, rights, rights[e], 0, pv1, results1, (fuel - 1) as nat);
            }
        }
    }
}

pub proof fn lemma_push_list_keeps_vertical(
    bodies: Seq<Body>,
    lefts: Seq<Seq<usize>>,
    rights: Seq<Seq<usize>>,
    row: Seq<usize>,
    k: int,
    pv: i64,
    results: Seq<Propagation>,
    fuel: nat,
)
    requires
        results.len() == bodies.len(),
    ensures
        push_list_spec(bodies, lefts, rights, row, k, pv, results, fuel).len() == results.len(),
        forall|j: int| 0 <= j < results.len() ==> {
            let out = #[trigger] push_list_spec(bodies, lefts, rights, row, k, pv, results, fuel)[j];
            out.carry == results[j].carry && out.intrinsic == results[j].intrinsic
        },
    decreases fuel, row.len() - k,
{
    if !(0 <= k < row.len()) {
    } else {
        let results1 = x_push_spec(bodies, lefts, rights, row[k] as int, pv, results, fuel);
        lemma_push_keeps_vertical(bodies, lefts, rights, row[k] as int, pv, results, fuel);
        lemma_push_list_keeps_vertical(bodies, lefts, rights, row, k + 1, pv, results1, fuel);
    }
}

// ------------------------------------------------------------------
// Ground is an absorbing sink.

/// A push cascade never writes a ground body's record.
proof fn lemma_push_skips_ground(
    bodies: Seq<Body>,
    lefts: Seq<Seq<usize>>,
    rights: Seq<Seq<usize>>,
    e: int,
    pv: i64,
    results: Seq<Propagation>,
    fuel: nat,
    j: int,
)
    requires
        results.len() == bodies.len(),
        0 <= j < bodies.len(),
        bodies[j].role is Ground,
    ensures
        x_push_spec(bodies, lefts, rights, e, pv, results, fuel)[j] == results[j],
    decreases fuel, 0int,
{
    lemma_push_keeps_vertical(bodies, lefts, rights, e, pv, results, fuel);
    if fuel == 0 || !(0 <= e < bodies.len()) || bodies[e].role is Ground || pv == 0 {
    } else {
        assert(e != j);
        let lb = if pv < 0 {
            crate::propagate::left_bound_from(bodies, lefts, lefts[e], 0, fuel)
        } else {
            None
        };
        let rb = if pv > 0 {
            crate::propagate::right_bound_from(bodies, rights, rights[e], 0, fuel)
        } else {
            None
        };
        let pv1 = crate::propagate::clamp_hi(crate::propagate::clamp_lo(pv, lb), rb);
        let rec = results[e];
        let rec1 = Propagation {
            left_x_bound: if pv < 0 {
                crate::propagate::opt_bound_max_spec(rec.left_x_bound, lb)
            } else {
                rec.left_x_bound
            },
            right_x_bound: if pv > 0 {
                crate::propagate::opt_bound_min_spec(rec.right_x_bound, rb)
            } else {
                rec.right_x_bound
            },
            push: crate::propagate::push_combine(rec.push, pv1),
            carry: rec.carry,
            intrinsic: rec.intrinsic,
        };
        let results1 = results.update(e, rec1);
        if bodies[e].is_active() && pv1 != 0 {
            if pv1 < 0 {
                lemma_push_list_skips_ground(bodies, lefts, rights, lefts[e], 0, pv1, results1, (fuel - 1) as nat, j);
            } else {
                lemma_push_list_skips_ground(bodies, lefts, rights, rights[e], 0, pv1, results1, (fuel - 1) as nat, j);
            }
        }
    }
}

proof fn lemma_push_list_skips_ground(
    bodies: Seq<Body>,
    lefts: Seq<Seq<usize>>,
    rights: Seq<Seq<usize>>,
    row: Seq<usize>,
    k: int,
    pv: i64,
    results: Seq<Propagation>,
    fuel: nat,
    j: int,
)
    requires
        results.len() == bodies.len(),
        0 <= j < bodies.len(),
        bodies[j].role is Ground,
    ensures
        push_list_spec(bodies, lefts, rights, row, k, pv, results, fuel)[j] == results[j],
    decreases fuel, row.len() - k,
{
    if 0 <= k < row.len() {
        let results1 = x_push_spec(bodies, lefts, rights, row[k] as int, pv, results, fuel);
        lemma_push_skips_ground(bodies, lefts, rights, row[k] as int, pv, results, fuel, j);
        lemma_push_keeps_vertical(bodies, lefts, rights, row[k] as int, pv, results, fuel);
        lemma_push_list_skips_ground(bodies, lefts, rights, row, k + 1, pv, results1, fuel, j);
    }
}

/// A carry cascade never writes a ground body's record.
proof fn lemma_carry_skips_ground(
    bodies: Seq<Body>,
    tops: Seq<Seq<usize>>,
    e: int,
    v: Vec2i,
    results: Seq<Propagation>,
    fuel: nat,
    j: int,
)
    requires
        results.len() == bodies.len(),
        0 <= j < bodies.len(),
        bodies[j].role is Ground,
    ensures
        carry_spec(bodies, tops, e, v, results, fuel).len() == results.len(),
        carry_spec(bodies, tops, e, v, results, fuel)[j] == results[j],
    decreases fuel, 0int,
{
    if fuel == 0 || !(0 <= e < bodies.len()) || bodies[e].role is Ground {
    } else {
        assert(e != j);
        let rec = results[e];
        let rec1 = Propagation {
            left_x_bound: rec.left_x_bound,
            right_x_bound: rec.right_x_bound,
            push: rec.push,
            carry: crate::propagate::carry_combine(rec.carry, v),
            intrinsic: rec.intrinsic,
        };
        let results1 = results.update(e, rec1);
        if bodies[e].is_active() {
            lemma_carry_list_skips_ground(bodies, tops, tops[e], 0, v, results1, (fuel - 1) as nat, j);
        }
    }
}

proof fn lemma_carry_list_skips_ground(
    bodies: Seq<Body>,
    tops: Seq<Seq<usize>>,
    row: Seq<usize>,
    k: int,
    v: Vec2i,
    results: Seq<Propagation>,
    fuel: nat,
    j: int,
)
    requires
        results.len() == bodies.len(),
        0 <= j < bodies.len(),
        bodies[j].role is Ground,
    ensures
        carry_list_spec(bodies, tops, row, k, v, results, fuel).len() == results.len(),
        carry_list_spec(bodies, tops, row, k, v, results, fuel)[j] == results[j],
    decreases fuel, row.len() - k,
{
    if 0 <= k < row.len() {
        let results1 = carry_spec(bodies, tops, row[k] as int, v, results, fuel);
        lemma_carry_skips_ground(bodies, tops, row[k] as int, v, results, fuel, j);
        lemma_carry_list_skips_ground(bodies, tops, row, k + 1, v, results1, fuel, j);
    }
}

/// One propagation never writes a ground body's record.
proof fn lemma_propagate_skips_ground(
    bodies: Seq<Body>,
    lefts: Seq<Seq<usize>>,
    rights: Seq<Seq<usize>>,
    tops: Seq<Seq<usize>>,
    bottoms: Seq<Seq<usize>>,
    e: int,
    iv: Vec2i,
    results: Seq<Propagation>,
    visited: Seq<bool>,
    counts: Seq<u32>,
    fuel: nat,
    j: int,
)
    requires
        results.len() == bodies.len(),
        0 <= j < bodies.len(),
        bodies[j].role is Ground,
    ensures
        propagate_spec(bodies, lefts, rights, tops, bottoms, e, iv, results, visited, counts, fuel).0.len()
            == results.len(),
        propagate_spec(bodies, lefts, rights, tops, bottoms, e, iv, results, visited, counts, fuel).0[j]
            == results[j],
{
    if !(0 <= e < bodies.len()) || bodies[e].role is Ground || visited[e] {
    } else {
        assert(e != j);
        let out = propagate_spec(bodies, lefts, rights, tops, bottoms, e, iv, results, visited, counts, fuel);
        let lb = if iv.x < 0 {
            crate::propagate::left_bound_from(bodies, lefts, lefts[e], 0, fuel)
        } else {
            None
        };
        let rb = if iv.x > 0 {
            crate::propagate::right_bound_from(bodies, rights, rights[e], 0, fuel)
        } else {
            None
        };
        let vx = crate::propagate::clamp_hi(crate::propagate::clamp_lo(iv.x, lb), rb);
        let vy = if bodies[e].role is Step {
            iv.y
        } else if iv.y > 0 && crate::propagate::blocked_up_spec(bodies, tops, e, fuel) {
            0i64
        } else if iv.y < 0 && crate::propagate::blocked_down_spec(bodies, bottoms, e, fuel) {
            0i64
        } else {
            iv.y
        };
        let esc_v = match bodies[e].role {
            Role::Step { escalator, .. } => match final_velocity(results[escalator as int]) {
                Some(w) => w,
                None => Vec2i::zero_spec(),
            },
            _ => Vec2i::zero_spec(),
        };
        let rec = results[e];
        let rec1 = Propagation {
            left_x_bound: crate::propagate::opt_bound_max_spec(rec.left_x_bound, lb),
            right_x_bound: crate::propagate::opt_bound_min_spec(rec.right_x_bound, rb),
            push: rec.push,
            carry: if bodies[e].role is Step {
                crate::propagate::carry_combine(rec.carry, esc_v)
            } else {
                rec.carry
            },
            intrinsic: Some(Vec2i { x: vx, y: vy }),
        };
        let results1 = results.update(e, rec1);
        if bodies[e].is_active() {
            let pushed = if vx < 0 {
                push_list_spec(bodies, lefts, rights, lefts[e], 0, vx, results1, fuel)
            } else if vx > 0 {
                push_list_spec(bodies, lefts, rights, rights[e], 0, vx, results1, fuel)
            } else {
                results1
            };
            if vx < 0 {
                lemma_push_list_skips_ground(bodies, lefts, rights, lefts[e], 0, vx, results1, fuel, j);
                lemma_push_list_keeps_vertical(bodies, lefts, rights, lefts[e], 0, vx, results1, fuel);
            } else if vx > 0 {
                lemma_push_list_skips_ground(bodies, lefts, rights, rights[e], 0, vx, results1, fuel, j);
                lemma_push_list_keeps_vertical(bodies, lefts, rights, rights[e], 0, vx, results1, fuel);
            }
            let cv = if bodies[e].role is Step {
                Vec2i {
                    x: crate::geom::cap_vel_spec(vx + esc_v.x),
                    y: crate::geom::cap_vel_spec(vy + esc_v.y),
                }
            } else {
                Vec2i { x: vx, y: vy }
            };
            lemma_carry_list_skips_ground(bodies, tops, tops[e], 0, cv, pushed, fuel, j);
        }
    }
}

/// A whole pass never writes a ground body's record.
proof fn lemma_pass_skips_ground(
    bodies: Seq<Body>,
    lefts: Seq<Seq<usize>>,
    rights: Seq<Seq<usize>>,
    tops: Seq<Seq<usize>>,
    bottoms: Seq<Seq<usize>>,
    ivs: Seq<Option<Vec2i>>,
    steps_pass: bool,
    k: int,
    st: (Seq<Propagation>, Seq<bool>, Seq<u32>),
    fuel: nat,
    j: int,
)
    requires
        st.0.len() == bodies.len(),
        0 <= j < bodies.len(),
        bodies[j].role is Ground,
    ensures
        pass_from(bodies, lefts, rights, tops, bottoms, ivs, steps_pass, k, st, fuel).0.len()
            == bodies.len(),
        pass_from(bodies, lefts, rights, tops, bottoms, ivs, steps_pass, k, st, fuel).0[j] == st.0[j],
    decreases bodies.len() - k,
{
    if 0 <= k < bodies.len() {
        let st1 = if (bodies[k].role is Step) == steps_pass {
            match ivs[k] {
                Some(iv) => propagate_spec(bodies, lefts, rights, tops, bottoms, k, iv, st.0, st.1, st.2, fuel),
                None => st,
            }
        } else {
            st
        };
        if (bodies[k].role is Step) == steps_pass {
            match ivs[k] {
                Some(iv) => {
                    lemma_propagate_skips_ground(
                        bodies, lefts, rights, tops, bottoms, k, iv, st.0, st.1, st.2, fuel, j,
                    );
                },
                None => {},
            }
        }
        lemma_pass_skips_ground(bodies, lefts, rights, tops, bottoms, ivs, steps_pass, k + 1, st1, fuel, j);
    }
}

/// Ground is an absorbing sink: whatever else the scene does, a tick leaves
/// every ground body exactly where it was, with its velocity cleared — no
/// push, carry or fall ever moves it.
pub proof fn lemma_ground_is_absorbing(
    bodies: Seq<Body>,
    inp: PlayerInput,
    plan: StepPlan,
    scale: i64,
    j: int,
)
    requires
        0 <= j < bodies.len(),
        bodies[j].role is Ground,
    ensures
        tick_spec(bodies, inp, plan, scale).len() == bodies.len(),
        tick_spec(bodies, inp, plan, scale)[j] == (Body {
            rect: bodies[j].rect,
            role: bodies[j].role,
            velocity: None,
        }),
{
    let n = bodies.len();
    let lrows = left_rows(bodies);
    let rrows = right_rows(bodies);
    let trows = top_rows(bodies);
    let brows = bottom_rows(bodies);
    let ivs = intrinsics_of(bodies, inp, plan);
    let st0 = (init_results(n), init_visited(n), init_counts(n));
    let st1 = pass_from(bodies, lrows, rrows, trows, brows, ivs, false, 0, st0, n);
    lemma_pass_skips_ground(bodies, lrows, rrows, trows, brows, ivs, false, 0, st0, n, j);
    lemma_pass_skips_ground(bodies, lrows, rrows, trows, brows, ivs, true, 0, st1, n, j);
    let st = run_propagation_spec(bodies, lrows, rrows, trows, brows, ivs);
    assert(st.0[j] == Propagation::empty_spec());
    assert(final_velocity(st.0[j]) is None);
    let bodies1 = write_back_spec(bodies, st.0);
    assert(bodies1[j] == (Body { rect: bodies[j].rect, role: bodies[j].role, velocity: None }));
    let bodies2 = integrate_all(bodies1, scale);
    assert(bodies2[j] == integrate_body(bodies1[j], scale));
    let bodies3 = update_steps_spec(bodies2, scale);
    assert(bodies3[j] == bodies2[j]);
}

// ------------------------------------------------------------------
// Every mover resolves.

/// A carry cascade writes only carry fields: no record's intrinsic changes.
proof fn lemma_carry_keeps_intrinsic(
    bodies: Seq<Body>,
    tops: Seq<Seq<usize>>,
    e: int,
    v: Vec2i,
    results: Seq<Propagation>,
    fuel: nat,
)
    requires
        results.len() == bodies.len(),
    ensures
        carry_spec(bodies, tops, e, v, results, fuel).len() == results.len(),
        forall|j: int| 0 <= j < results.len() ==> (#[trigger] carry_spec(
            bodies,
            tops,
            e,
            v,
            results,
            fuel,
        )[j]).intrinsic == results[j].intrinsic,
    decreases fuel, 0int,
{
    if fuel == 0 || !(0 <= e < bodies.len()) || bodies[e].role is Ground {
    } else {
        let rec = results[e];
        let rec1 = Propagation {
            left_x_bound: rec.left_x_bound,
            right_x_bound: rec.right_x_bound,
            push: rec.push,
            carry: crate::propagate::carry_combine(rec.carry, v),
            intrinsic: rec.intrinsic,
        };
        let results1 = results.update(e, rec1);
        if bodies[e].is_active() {
            lemma_carry_list_keeps_intrinsic(bodies, tops, tops[e], 0, v, results1, (fuel - 1) as nat);
        }
    }
}

proof fn lemma_carry_list_keeps_intrinsic(
    bodies: Seq<Body>,
    tops: Seq<Seq<usize>>,
    row: Seq<usize>,
    k: int,
    v: Vec2i,
    results: Seq<Propagation>,
    fuel: nat,
)
    requires
        results.len() == bodies.len(),
    ensures
        carry_list_spec(bodies, tops, row, k, v, results, fuel).len() == results.len(),
        forall|j: int| 0 <= j < results.len() ==> (#[trigger] carry_list_spec(
            bodies,
            tops,
            row,
            k,
            v,
            results,
            fuel,
        )[j]).intrinsic == results[j].intrinsic,
    decreases fuel, row.len() - k,
{
    if 0 <= k < row.len() {
        let results1 = carry_spec(bodies, tops, row[k] as int, v, results, fuel);
        lemma_carry_keeps_intrinsic(bodies, tops, row[k] as int, v, results, fuel);
        lemma_carry_list_keeps_intrinsic(bodies, tops, row, k + 1, v, results1, fuel);
    }
}

/// One propagation resolves its own body's intrinsic, unsettles nobody
/// else's, and marks only its own body visited.
proof fn lemma_propagate_resolves(
    bodies: Seq<Body>,
    lefts: Seq<Seq<usize>>,
    rights: Seq<Seq<usize>>,
    tops: Seq<Seq<usize>>,
    bottoms: Seq<Seq<usize>>,
    e: int,
    iv: Vec2i,
    results: Seq<Propagation>,
    visited: Seq<bool>,
    counts: Seq<u32>,
    fuel: nat,
)
    requires
        results.len() == bodies.len(),
        visited.len() == bodies.len(),
    ensures
        propagate_spec(bodies, lefts, rights, tops, bottoms, e, iv, results, visited, counts, fuel).0.len()
            == results.len(),
        propagate_spec(bodies, lefts, rights, tops, bottoms, e, iv, results, visited, counts, fuel).1.len()
            == visited.len(),
        forall|j: int| 0 <= j < results.len() && results[j].intrinsic is Some ==> (
        #[trigger] propagate_spec(
            bodies,
            lefts,
            rights,
            tops,
            bottoms,
            e,
            iv,
            results,
            visited,
            counts,
            fuel,
        ).0[j]).intrinsic is Some,
        forall|j: int| 0 <= j < visited.len() && j != e ==> #[trigger] propagate_spec(
            bodies,
            lefts,
            rights,
            tops,
            bottoms,
            e,
            iv,
            results,
            visited,
            counts,
            fuel,
        ).1[j] == visited[j],
        (0 <= e < bodies.len() && !(bodies[e].role is Ground) && !visited[e]) ==> propagate_spec(
            bodies,
            lefts,
            rights,
            tops,
            bottoms,
            e,
            iv,
            results,
            visited,
            counts,
            fuel,
        ).0[e].intrinsic is Some,
{
    if !(0 <= e < bodies.len()) || bodies[e].role is Ground || visited[e] {
    } else {
        let lb = if iv.x < 0 {
            crate::propagate::left_bound_from(bodies, lefts, lefts[e], 0, fuel)
        } else {
            None
        };
        let rb = if iv.x > 0 {
            crate::propagate::right_bound_from(bodies, rights, rights[e], 0, fuel)
        } else {
            None
        };
        let vx = crate::propagate::clamp_hi(crate::propagate::clamp_lo(iv.x, lb), rb);
        let vy = if bodies[e].role is Step {
            iv.y
        } else if iv.y > 0 && crate::propagate::blocked_up_spec(bodies, tops, e, fuel) {
            0i64
        } else if iv.y < 0 && blocked_down_spec(bodies, bottoms, e, fuel) {
            0i64
        } else {
            iv.y
        };
        let esc_v = match bodies[e].role {
            Role::Step { escalator, .. } => match final_velocity(results[escalator as int]) {
                Some(w) => w,
                None => Vec2i::zero_spec(),
            },
            _ => Vec2i::zero_spec(),
        };
        let rec = results[e];
        let rec1 = Propagation {
            left_x_bound: crate::propagate::opt_bound_max_spec(rec.left_x_bound, lb),
            right_x_bound: crate::propagate::opt_bound_min_spec(rec.right_x_bound, rb),
            push: rec.push,
            carry: if bodies[e].role is Step {
                crate::propagate::carry_combine(rec.carry, esc_v)
            } else {
                rec.carry
            },
            intrinsic: Some(Vec2i { x: vx, y: vy }),
        };
        let results1 = results.update(e, rec1);
        if bodies[e].is_active() {
            let pushed = if vx < 0 {
                push_list_spec(bodies, lefts, rights, lefts[e], 0, vx, results1, fuel)
            } else if vx > 0 {
                push_list_spec(bodies, lefts, rights, rights[e], 0, vx, results1, fuel)
            } else {
                results1
            };
            if vx < 0 {
                lemma_push_list_keeps_vertical(bodies, lefts, rights, lefts[e], 0, vx, results1, fuel);
            } else if vx > 0 {
                lemma_push_list_keeps_vertical(bodies, lefts, rights, rights[e], 0, vx, results1, fuel);
            }
            let cv = if bodies[e].role is Step {
                Vec2i {
                    x: crate::geom::cap_vel_spec(vx + esc_v.x),
                    y: crate::geom::cap_vel_spec(vy + esc_v.y),
                }
            } else {
                Vec2i { x: vx, y: vy }
            };
            lemma_carry_list_keeps_intrinsic(bodies, tops, tops[e], 0, cv, pushed, fuel);
        }
    }
}

/// A pass resolves the intrinsic of every body it selects that was not yet
/// visited, keeps every already-resolved intrinsic, and leaves the visited
/// marks of the other pass's bodies alone.
proof fn lemma_pass_resolves(
    bodies: Seq<Body>,
    lefts: Seq<Seq<usize>>,
    rights: Seq<Seq<usize>>,
    tops: Seq<Seq<usize>>,
    bottoms: Seq<Seq<usize>>,
    ivs: Seq<Option<Vec2i>>,
    steps_pass: bool,
    k: int,
    st: (Seq<Propagation>, Seq<bool>, Seq<u32>),
    fuel: nat,
)
    requires
        k >= 0,
        st.0.len() == bodies.len(),
        st.1.len() == bodies.len(),
        forall|j: int| 0 <= j < bodies.len() && (#[trigger] ivs[j]) is Some ==> !(bodies[j].role
            is Ground),
    ensures
        pass_from(bodies, lefts, rights, tops, bottoms, ivs, steps_pass, k, st, fuel).0.len()
            == bodies.len(),
        pass_from(bodies, lefts, rights, tops, bottoms, ivs, steps_pass, k, st, fuel).1.len()
            == bodies.len(),
        forall|j: int| 0 <= j < bodies.len() && st.0[j].intrinsic is Some ==> (#[trigger] pass_from(
            bodies,
            lefts,
            rights,
            tops,
            bottoms,
            ivs,
            steps_pass,
            k,
            st,
            fuel,
        ).0[j]).intrinsic is Some,
        forall|j: int| k <= j < bodies.len() && ((bodies[j].role is Step) == steps_pass)
            && ivs[j] is Some && !st.1[j] ==> (#[trigger] pass_from(
            bodies,
            lefts,
            rights,
            tops,
            bottoms,
            ivs,
            steps_pass,
            k,
            st,
            fuel,
        ).0[j]).intrinsic is Some,
        forall|j: int| 0 <= j < bodies.len() && ((bodies[j].role is Step) != steps_pass)
            ==> #[trigger] pass_from(
            bodies,
            lefts,
            rights,
            tops,
            bottoms,
            ivs,
            steps_pass,
            k,
            st,
            fuel,
        ).1[j] == st.1[j],
    decreases bodies.len() - k,
{
    if 0 <= k < bodies.len() {
        let st1 = if (bodies[k].role is Step) == steps_pass {
            match ivs[k] {
                Some(iv) => propagate_spec(bodies, lefts, rights, tops, bottoms, k, iv, st.0, st.1, st.2, fuel),
                None => st,
            }
        } else {
            st
        };
        if (bodies[k].role is Step) == steps_pass {
            match ivs[k] {
                Some(iv) => {
                    lemma_propagate_resolves(
                        bodies, lefts, rights, tops, bottoms, k, iv, st.0, st.1, st.2, fuel,
                    );
                },
                None => {},
            }
        }
        lemma_pass_resolves(bodies, lefts, rights, tops, bottoms, ivs, steps_pass, k + 1, st1, fuel);
    }
}

/// No mover is left unresolved: after a tick, every body but ground carries
/// an explicit velocity — a standstill is `Some(zero)`, never `None`. (Under
/// the intrinsic rules every non-ground body has a velocity source; `None`
/// remains only on ground, which no propagation touches.)
pub proof fn lemma_every_mover_resolves(
    bodies: Seq<Body>,
    inp: PlayerInput,
    plan: StepPlan,
    scale: i64,
    i: int,
)
    requires
        0 <= i < bodies.len(),
        !(bodies[i].role is Ground),
    ensures
        tick_spec(bodies, inp, plan, scale).len() == bodies.len(),
        tick_spec(bodies, inp, plan, scale)[i].velocity is Some,
{
    let n = bodies.len();
    let lrows = left_rows(bodies);
    let rrows = right_rows(bodies);
    let trows = top_rows(bodies);
    let brows = bottom_rows(bodies);
    let ivs = intrinsics_of(bodies, inp, plan);
    assert forall|j: int| 0 <= j < n && (#[trigger] ivs[j]) is Some implies !(bodies[j].role
        is Ground) by {
        assert(ivs[j] == intrinsic_of(bodies, brows, j, inp, plan));
    }
    assert(ivs[i] is Some) by {
        assert(ivs[i] == intrinsic_of(bodies, brows, i, inp, plan));
    }
    let st0 = (init_results(n), init_visited(n), init_counts(n));
    let st1 = pass_from(bodies, lrows, rrows, trows, brows, ivs, false, 0, st0, n);
    lemma_pass_resolves(bodies, lrows, rrows, trows, brows, ivs, false, 0, st0, n);
    lemma_pass_resolves(bodies, lrows, rrows, trows, brows, ivs, true, 0, st1, n);
    let st = run_propagation_spec(bodies, lrows, rrows, trows, brows, ivs);
    assert(!st0.1[i]);
    if !(bodies[i].role is Step) {
        assert(st1.0[i].intrinsic is Some);
    } else {
        assert(st1.1[i] == st0.1[i]);
    }
    assert(st.0[i].intrinsic is Some);
    let bodies1 = write_back_spec(bodies, st.0);
    assert(bodies1[i].velocity == final_velocity(st.0[i]));
    assert(!st.0[i].untouched());
    assert(bodies1[i].velocity is Some);
    let bodies2 = integrate_all(bodies1, scale);
    assert(bodies2[i] == integrate_body(bodies1[i], scale));
    assert(bodies2[i].velocity == bodies1[i].velocity);
    let bodies3 = update_steps_spec(bodies2, scale);
    assert(bodies3[i].velocity == bodies2[i].velocity);
}

// ------------------------------------------------------------------
// The track loop is closed too, and traces the same legs as the arms.

/// The closed-form track parametrization is a loop: its placement at the
/// wrap point equals its placement at the start, and advancing a track
/// coordinate by the full loop length brings it back to the same value.
pub proof fn lemma_track_loop_closed(eh: int, sh: int, t: Track)
    requires
        0 < sh <= eh,
        t.wf(),
        t.length == track_loop_len(eh, sh),
    ensures
        track_offset_x(eh, sh, 0) == track_offset_x(eh, sh, track_loop_len(eh, sh)),
        track_offset_y(eh, sh, 0) == track_offset_y(eh, sh, track_loop_len(eh, sh)),
        advance_track_spec(t, t.length as int) == t,
{
    let p = t.position as int;
    let len = t.length as int;
    assert((p + len) % len == p) by (nonlinear_arith)
        requires 0 <= p < len;
}

/// Each leg of the track loop moves one unit per track unit in exactly the
/// direction of the corresponding arm of the state machine: the two step
/// placement strategies trace the same motion loop, leg for leg.
pub proof fn lemma_track_legs_follow_arms(eh: int, sh: int, t: int)
    requires
        1 <= sh,
        2 * sh <= eh,
        0 <= t,
    ensures
        ({
            let dx = track_offset_x(eh, sh, t + 1) - track_offset_x(eh, sh, t);
            let dy = track_offset_y(eh, sh, t + 1) - track_offset_y(eh, sh, t);
            &&& (t < 2 * sh ==> dx == arm_velocity_spec(Arm::A).x && dy == arm_velocity_spec(Arm::A).y)
            &&& (2 * sh <= t < 2 * eh - 2 * sh ==> dx == arm_velocity_spec(Arm::B).x && dy
                == arm_velocity_spec(Arm::B).y)
            &&& (2 * eh - 2 * sh <= t < 2 * eh ==> dx == arm_velocity_spec(Arm::C).x && dy
                == arm_velocity_spec(Arm::C).y)
            &&& (2 * eh <= t ==> dx == arm_velocity_spec(Arm::D).x && dy == arm_velocity_spec(
                Arm::D,
            ).y)
        }),
{
}

/// The initial layout and the track parametrization agree: slot `k` of
/// `steps` stands exactly where the track places its coordinate `k * 2 * sh`,
/// so a freshly laid-out complement does not move until its tracks do.
pub proof fn lemma_layout_matches_track(ec: Vec2i, eh: int, sh: int, k: int)
    requires
        1 <= sh,
        eh % sh == 0,
        eh / sh >= 2,
        0 <= k <= 2 * (eh / sh) - 2,
    ensures
        ({
            let (x, y, arm, tp) = step_slot(ec, eh, sh, k);
            &&& tp == k * 2 * sh
            &&& x == ec.x + track_offset_x(eh, sh, tp)
            &&& y == ec.y + track_offset_y(eh, sh, tp)
        }),
{
    let n = eh / sh;
    vstd::arithmetic::div_mod::lemma_fundamental_div_mod(eh, sh);
    assert(n * sh == eh);
    assert(eh >= 2 * sh) by (nonlinear_arith)
        requires n * sh == eh, n >= 2, sh >= 1;
    let (x, y, arm, tp) = step_slot(ec, eh, sh, k);
    assert(tp == k * 2 * sh);
    if k == 0 {
        assert(k * 2 * sh == 0) by (nonlinear_arith)
            requires k == 0;
        assert(x == ec.x + track_offset_x(eh, sh, tp));
        assert(y == ec.y + track_offset_y(eh, sh, tp));
    } else if k <= n - 2 {
        assert(2 * sh <= k * 2 * sh <= 2 * eh - 4 * sh) by (nonlinear_arith)
            requires 1 <= k <= n - 2, n * sh == eh, sh >= 1;
        assert(k * 2 * sh - 2 * sh == (k - 1) * 2 * sh) by (nonlinear_arith);
        assert(x == ec.x + track_offset_x(eh, sh, tp));
        assert(y == ec.y + track_offset_y(eh, sh, tp));
    } else if k == n - 1 {
        assert(k * 2 * sh == 2 * eh - 2 * sh) by (nonlinear_arith)
            requires k == n - 1, n * sh == eh;
        assert(x == ec.x + track_offset_x(eh, sh, tp));
        assert(y == ec.y + track_offset_y(eh, sh, tp));
    } else {
        assert(2 * eh <= k * 2 * sh <= 4 * eh - 4 * sh) by (nonlinear_arith)
            requires n <= k <= 2 * n - 2, n * sh == eh, sh >= 1;
        assert(k * 2 * sh - 2 * eh == (k - n) * 2 * sh) by (nonlinear_arith)
            requires n * sh == eh;
        assert(x == ec.x + track_offset_x(eh, sh, tp));
        assert(y == ec.y + track_offset_y(eh, sh, tp));
    }
}

/// Within the velocity cap the track placement is absolute: the step's
/// velocity is the exact difference to the closed-form track point, so one
/// unit-scale integration lands it exactly there and cancels any accumulated
/// positional error within one tick.
pub proof fn lemma_track_landing(esc: Rect, step: Rect, t: Track)
    requires
        ({
            let tx = esc.center.x + track_offset_x(esc.half_w as int, step.half_w as int, t.position as int);
            let ty = esc.center.y + track_offset_y(esc.half_w as int, step.half_w as int, t.position as int);
            &&& -VEL_LIMIT <= tx - step.center.x <= VEL_LIMIT
            &&& -VEL_LIMIT <= ty - step.center.y <= VEL_LIMIT
        }),
    ensures
        ({
            let tx = esc.center.x + track_offset_x(esc.half_w as int, step.half_w as int, t.position as int);
            let ty = esc.center.y + track_offset_y(esc.half_w as int, step.half_w as int, t.position as int);
            &&& step.center.x + step_velocity_spec(esc, step, t).x == tx
            &&& step.center.y + step_velocity_spec(esc, step, t).y == ty
        }),
{
}

/// Evenly spaced steps never collide on the loop: two distinct track
/// coordinates of the same loop stay distinct however far the loop runs.
pub proof fn lemma_track_spacing_kept(t1: Track, t2: Track, delta: int)
    requires
        t1.wf(),
        t2.wf(),
        t1.length == t2.length,
        t1.position != t2.position,
        0 <= delta,
    ensures
        advance_track_spec(t1, delta).position != advance_track_spec(t2, delta).position,
{
    let len = t1.length as int;
    let p1 = t1.position as int;
    let p2 = t2.position as int;
    vstd::arithmetic::div_mod::lemma_fundamental_div_mod(p1 + delta, len);
    vstd::arithmetic::div_mod::lemma_fundamental_div_mod(p2 + delta, len);
    let q1 = (p1 + delta) / len;
    let q2 = (p2 + delta) / len;
    let r1 = (p1 + delta) % len;
    let r2 = (p2 + delta) % len;
    vstd::arithmetic::div_mod::lemma_mod_bound(p1 + delta, len);
    vstd::arithmetic::div_mod::lemma_mod_bound(p2 + delta, len);
    if r1 == r2 {
        assert(false) by (nonlinear_arith)
            requires
                p1 + delta == q1 * len + r1,
                p2 + delta == q2 * len + r2,
                r1 == r2,
                0 <= p1 < len,
                0 <= p2 < len,
                p1 != p2;
    }
}

// ------------------------------------------------------------------
// A body nobody touches is resolved by its own propagation alone.

/// A push cascade that starts away from `i` never reaches `i` when every
/// body whose neighbour rows mention `i` is ground (ground neither resolves
/// nor relays).
proof fn lemma_push_avoids(
    bodies: Seq<Body>,
    lefts: Seq<Seq<usize>>,
    rights: Seq<Seq<usize>>,
    e: int,
    pv: i64,
    results: Seq<Propagation>,
    fuel: nat,
    i: int,
)
    requires
        results.len() == bodies.len(),
        lefts.len() == bodies.len(),
        rights.len() == bodies.len(),
        0 <= i < bodies.len(),
        e != i,
        forall|e2: int| 0 <= e2 < bodies.len() && (row_has(#[trigger] lefts[e2], i) || row_has(
            rights[e2],
            i,
        )) ==> bodies[e2].role is Ground,
    ensures
        x_push_spec(bodies, lefts, rights, e, pv, results, fuel)[i] == results[i],
    decreases fuel, 0int,
{
    lemma_push_keeps_vertical(bodies, lefts, rights, e, pv, results, fuel);
    if fuel == 0 || !(0 <= e < bodies.len()) || bodies[e].role is Ground || pv == 0 {
    } else {
        let lb = if pv < 0 {
            crate::propagate::left_bound_from(bodies, lefts, lefts[e], 0, fuel)
        } else {
            None
        };
        let rb = if pv > 0 {
            crate::propagate::right_bound_from(bodies, rights, rights[e], 0, fuel)
        } else {
            None
        };
        let pv1 = crate::propagate::clamp_hi(crate::propagate::clamp_lo(pv, lb), rb);
        let rec = results[e];
        let rec1 = Propagation {
            left_x_bound: if pv < 0 {
                crate::propagate::opt_bound_max_spec(rec.left_x_bound, lb)
            } else {
                rec.left_x_bound
            },
            right_x_bound: if pv > 0 {
                crate::propagate::opt_bound_min_spec(rec.right_x_bound, rb)
            } else {
                rec.right_x_bound
            },
            push: crate::propagate::push_combine(rec.push, pv1),
            carry: rec.carry,
            intrinsic: rec.intrinsic,
        };
        let results1 = results.update(e, rec1);
        if bodies[e].is_active() && pv1 != 0 {
            if pv1 < 0 {
                assert(!row_has(lefts[e], i));
                lemma_push_list_avoids(bodies, lefts, rights, lefts[e], 0, pv1, results1, (fuel - 1) as nat, i);
            } else {
                assert(!row_has(rights[e], i));
                lemma_push_list_avoids(bodies, lefts, rights, rights[e], 0, pv1, results1, (fuel - 1) as nat, i);
            }
        }
    }
}

proof fn lemma_push_list_avoids(
    bodies: Seq<Body>,
    lefts: Seq<Seq<usize>>,
    rights: Seq<Seq<usize>>,
    row: Seq<usize>,
    k: int,
    pv: i64,
    results: Seq<Propagation>,
    fuel: nat,
    i: int,
)
    requires
        results.len() == bodies.len(),
        lefts.len() == bodies.len(),
        rights.len() == bodies.len(),
        0 <= i < bodies.len(),
        !row_has(row, i),
        forall|e2: int| 0 <= e2 < bodies.len() && (row_has(#[trigger] lefts[e2], i) || row_has(
            rights[e2],
            i,
        )) ==> bodies[e2].role is Ground,
    ensures
        push_list_spec(bodies, lefts, rights, row, k, pv, results, fuel)[i] == results[i],
    decreases fuel, row.len() - k,
{
    if 0 <= k < row.len() {
        let results1 = x_push_spec(bodies, lefts, rights, row[k] as int, pv, results, fuel);
        assert(row[k] != i) by {
            if row[k] == i {
                assert(row_has(row, i));
            }
        }
        lemma_push_avoids(bodies, lefts, rights, row[k] as int, pv, results, fuel, i);
        lemma_push_keeps_vertical(bodies, lefts, rights, row[k] as int, pv, results, fuel);
        lemma_push_list_avoids(bodies, lefts, rights, row, k + 1, pv, results1, fuel, i);
    }
}

/// A carry cascade that starts away from `i` never reaches `i` when every
/// body whose rider row mentions `i` is ground.
proof fn lemma_carry_avoids(
    bodies: Seq<Body>,
    tops: Seq<Seq<usize>>,
    e: int,
    v: Vec2i,
    results: Seq<Propagation>,
    fuel: nat,
    i: int,
)
    requires
        results.len() == bodies.len(),
        tops.len() == bodies.len(),
        0 <= i < bodies.len(),
        e != i,
        forall|e2: int| 0 <= e2 < bodies.len() && row_has(#[trigger] tops[e2], i) ==> bodies[e2].role
            is Ground,
    ensures
        carry_spec(bodies, tops, e, v, results, fuel).len() == results.len(),
        carry_spec(bodies, tops, e, v, results, fuel)[i] == results[i],
    decreases fuel, 0int,
{
    if fuel == 0 || !(0 <= e < bodies.len()) || bodies[e].role is Ground {
    } else {
        let rec = results[e];
        let rec1 = Propagation {
            left_x_bound: rec.left_x_bound,
            right_x_bound: rec.right_x_bound,
            push: rec.push,
            carry: crate::propagate::carry_combine(rec.carry, v),
            intrinsic: rec.intrinsic,
        };
        let results1 = results.update(e, rec1);
        if bodies[e].is_active() {
            assert(!row_has(tops[e], i));
            lemma_carry_list_avoids(bodies, tops, tops[e], 0, v, results1, (fuel - 1) as nat, i);
        }
    }
}

proof fn lemma_carry_list_avoids(
    bodies: Seq<Body>,
    tops: Seq<Seq<usize>>,
    row: Seq<usize>,
    k: int,
    v: Vec2i,
    results: Seq<Propagation>,
    fuel: nat,
    i: int,
)
    requires
        results.len() == bodies.len(),
        tops.len() == bodies.len(),
        0 <= i < bodies.len(),
        !row_has(row, i),
        forall|e2: int| 0 <= e2 < bodies.len() && row_has(#[trigger] tops[e2], i) ==> bodies[e2].role
            is Ground,
    ensures
        carry_list_spec(bodies, tops, row, k, v, results, fuel).len() == results.len(),
        carry_list_spec(bodies, tops, row, k, v, results, fuel)[i] == results[i],
    decreases fuel, row.len() - k,
{
    if 0 <= k < row.len() {
        let results1 = carry_spec(bodies, tops, row[k] as int, v, results, fuel);
        assert(row[k] != i) by {
            if row[k] == i {
                assert(row_has(row, i));
            }
        }
        lemma_carry_avoids(bodies, tops, row[k] as int, v, results, fuel, i);
        lemma_carry_list_avoids(bodies, tops, row, k + 1, v, results1, fuel, i);
    }
}

/// Propagating any other body leaves `i`'s record and visited mark alone,
/// under the same seclusion hypotheses.
proof fn lemma_propagate_avoids(
    bodies: Seq<Body>,
    lefts: Seq<Seq<usize>>,
    rights: Seq<Seq<usize>>,
    tops: Seq<Seq<usize>>,
    bottoms: Seq<Seq<usize>>,
    e: int,
    iv: Vec2i,
    results: Seq<Propagation>,
    visited: Seq<bool>,
    counts: Seq<u32>,
    fuel: nat,
    i: int,
)
    requires
        results.len() == bodies.len(),
        visited.len() == bodies.len(),
        lefts.len() == bodies.len(),
        rights.len() == bodies.len(),
        tops.len() == bodies.len(),
        0 <= i < bodies.len(),
        e != i,
        forall|e2: int| 0 <= e2 < bodies.len() && (row_has(#[trigger] lefts[e2], i) || row_has(
            rights[e2],
            i,
        )) ==> bodies[e2].role is Ground,
        forall|e2: int| 0 <= e2 < bodies.len() && row_has(#[trigger] tops[e2], i) ==> bodies[e2].role
            is Ground,
    ensures
        ({
            let out = propagate_spec(
                bodies, lefts, rights, tops, bottoms, e, iv, results, visited, counts, fuel,
            );
            &&& out.0.len() == results.len()
            &&& out.1.len() == visited.len()
            &&& out.0[i] == results[i]
            &&& out.1[i] == visited[i]
        }),
{
    lemma_propagate_resolves(bodies, lefts, rights, tops, bottoms, e, iv, results, visited, counts, fuel);
    if !(0 <= e < bodies.len()) || bodies[e].role is Ground || visited[e] {
    } else {
        let lb = if iv.x < 0 {
            crate::propagate::left_bound_from(bodies, lefts, lefts[e], 0, fuel)
        } else {
            None
        };
        let rb = if iv.x > 0 {
            crate::propagate::right_bound_from(bodies, rights, rights[e], 0, fuel)
        } else {
            None
        };
        let vx = crate::propagate::clamp_hi(crate::propagate::clamp_lo(iv.x, lb), rb);
        let vy = if bodies[e].role is Step {
            iv.y
        } else if iv.y > 0 && crate::propagate::blocked_up_spec(bodies, tops, e, fuel) {
            0i64
        } else if iv.y < 0 && blocked_down_spec(bodies, bottoms, e, fuel) {
            0i64
        } else {
            iv.y
        };
        let esc_v = match bodies[e].role {
            Role::Step { escalator, .. } => match final_velocity(results[escalator as int]) {
                Some(w) => w,
                None => Vec2i::zero_spec(),
            },
            _ => Vec2i::zero_spec(),
        };
        let rec = results[e];
        let rec1 = Propagation {
            left_x_bound: crate::propagate::opt_bound_max_spec(rec.left_x_bound, lb),
            right_x_bound: crate::propagate::opt_bound_min_spec(rec.right_x_bound, rb),
            push: rec.push,
            carry: if bodies[e].role is Step {
                crate::propagate::carry_combine(rec.carry, esc_v)
            } else {
                rec.carry
            },
            intrinsic: Some(Vec2i { x: vx, y: vy }),
        };
        let results1 = results.update(e, rec1);
        if bodies[e].is_active() {
            let pushed = if vx < 0 {
                push_list_spec(bodies, lefts, rights, lefts[e], 0, vx, results1, fuel)
            } else if vx > 0 {
                push_list_spec(bodies, lefts, rights, rights[e], 0, vx, results1, fuel)
            } else {
                results1
            };
            if vx < 0 {
                assert(!row_has(lefts[e], i));
                lemma_push_list_avoids(bodies, lefts, rights, lefts[e], 0, vx, results1, fuel, i);
                lemma_push_list_keeps_vertical(bodies, lefts, rights, lefts[e], 0, vx, results1, fuel);
            } else if vx > 0 {
                assert(!row_has(rights[e], i));
                lemma_push_list_avoids(bodies, lefts, rights, rights[e], 0, vx, results1, fuel, i);
                lemma_push_list_keeps_vertical(bodies, lefts, rights, rights[e], 0, vx, results1, fuel);
            }
            let cv = if bodies[e].role is Step {
                Vec2i {
                    x: crate::geom::cap_vel_spec(vx + esc_v.x),
                    y: crate::geom::cap_vel_spec(vy + esc_v.y),
                }
            } else {
                Vec2i { x: vx, y: vy }
            };
            assert(!row_has(tops[e], i));
            lemma_carry_list_avoids(bodies, tops, tops[e], 0, cv, pushed, fuel, i);
        }
    }
}

/// The record the one propagation of a secluded non-step body writes for it.
spec fn resolved_record(
    bodies: Seq<Body>,
    lefts: Seq<Seq<usize>>,
    rights: Seq<Seq<usize>>,
    tops: Seq<Seq<usize>>,
    bottoms: Seq<Seq<usize>>,
    i: int,
    iv: Vec2i,
    rec: Propagation,
    fuel: nat,
) -> Propagation {
    let lb = if iv.x < 0 {
        crate::propagate::left_bound_from(bodies, lefts, lefts[i], 0, fuel)
    } else {
        None
    };
    let rb = if iv.x > 0 {
        crate::propagate::right_bound_from(bodies, rights, rights[i], 0, fuel)
    } else {
        None
    };
    let vx = crate::propagate::clamp_hi(crate::propagate::clamp_lo(iv.x, lb), rb);
    let vy = if iv.y > 0 && crate::propagate::blocked_up_spec(bodies, tops, i, fuel) {
        0i64
    } else if iv.y < 0 && blocked_down_spec(bodies, bottoms, i, fuel) {
        0i64
    } else {
        iv.y
    };
    Propagation {
        left_x_bound: crate::propagate::opt_bound_max_spec(rec.left_x_bound, lb),
        right_x_bound: crate::propagate::opt_bound_min_spec(rec.right_x_bound, rb),
        push: rec.push,
        carry: rec.carry,
        intrinsic: Some(Vec2i { x: vx, y: vy }),
    }
}

/// A pass over a scene with arbitrary other movers resolves a secluded
/// non-step body by its own propagation alone: its record is exactly the
/// resolved record, and nothing else ever writes it.
proof fn lemma_pass_isolated(
    bodies: Seq<Body>,
    lefts: Seq<Seq<usize>>,
    rights: Seq<Seq<usize>>,
    tops: Seq<Seq<usize>>,
    bottoms: Seq<Seq<usize>>,
    ivs: Seq<Option<Vec2i>>,
    steps_pass: bool,
    k: int,
    st: (Seq<Propagation>, Seq<bool>, Seq<u32>),
    fuel: nat,
    i: int,
)
    requires
        k >= 0,
        st.0.len() == bodies.len(),
        st.1.len() == bodies.len(),
        lefts.len() == bodies.len(),
        rights.len() == bodies.len(),
        tops.len() == bodies.len(),
        0 <= i < bodies.len(),
        !(bodies[i].role is Ground),
        !(bodies[i].role is Step),
        forall|e2: int| 0 <= e2 < bodies.len() && (row_has(#[trigger] lefts[e2], i) || row_has(
            rights[e2],
            i,
        )) ==> bodies[e2].role is Ground,
        forall|e2: int| 0 <= e2 < bodies.len() && row_has(#[trigger] tops[e2], i) ==> bodies[e2].role
            is Ground,
    ensures
        ({
            let out = pass_from(bodies, lefts, rights, tops, bottoms, ivs, steps_pass, k, st, fuel);
            &&& out.0.len() == bodies.len()
            &&& out.1.len() == bodies.len()
            &&& if k <= i && !steps_pass && !st.1[i] && ivs[i] is Some {
                match ivs[i] {
                    Some(iv) => out.0[i] == resolved_record(
                        bodies, lefts, rights, tops, bottoms, i, iv, st.0[i], fuel,
                    ) && out.1[i] == true,
                    None => false,
                }
            } else {
                out.0[i] == st.0[i] && out.1[i] == st.1[i]
            }
        }),
    decreases bodies.len() - k,
{
    if 0 <= k < bodies.len() {
        let st1 = if (bodies[k].role is Step) == steps_pass {
            match ivs[k] {
                Some(iv) => propagate_spec(bodies, lefts, rights, tops, bottoms, k, iv, st.0, st.1, st.2, fuel),
                None => st,
            }
        } else {
            st
        };
        if (bodies[k].role is Step) == steps_pass {
            match ivs[k] {
                Some(iv) => {
                    lemma_propagate_resolves(
                        bodies, lefts, rights, tops, bottoms, k, iv, st.0, st.1, st.2, fuel,
                    );
                    if k != i {
                        lemma_propagate_avoids(
                            bodies, lefts, rights, tops, bottoms, k, iv, st.0, st.1, st.2, fuel, i,
                        );
                    } else {
                        // The one propagation of `i`: its relays do not come
                        // back to it.
                        if !st.1[i] {
                            let lb = if iv.x < 0 {
                                crate::propagate::left_bound_from(bodies, lefts, lefts[i], 0, fuel)
                            } else {
                                None
                            };
                            let rb = if iv.x > 0 {
                                crate::propagate::right_bound_from(bodies, rights, rights[i], 0, fuel)
                            } else {
                                None
                            };
                            let vx = crate::propagate::clamp_hi(crate::propagate::clamp_lo(iv.x, lb), rb);
                            let rec1 = resolved_record(
                                bodies, lefts, rights, tops, bottoms, i, iv, st.0[i], fuel,
                            );
                            let results1 = st.0.update(i, rec1);
                            if bodies[i].is_active() {
                                let pushed = if vx < 0 {
                                    push_list_spec(bodies, lefts, rights, lefts[i], 0, vx, results1, fuel)
                                } else if vx > 0 {
                                    push_list_spec(bodies, lefts, rights, rights[i], 0, vx, results1, fuel)
                                } else {
                                    results1
                                };
                                if vx < 0 {
                                    assert(!row_has(lefts[i], i));
                                    lemma_push_list_avoids(
                                        bodies, lefts, rights, lefts[i], 0, vx, results1, fuel, i,
                                    );
                                    lemma_push_list_keeps_vertical(
                                        bodies, lefts, rights, lefts[i], 0, vx, results1, fuel,
                                    );
                                } else if vx > 0 {
                                    assert(!row_has(rights[i], i));
                                    lemma_push_list_avoids(
                                        bodies, lefts, rights, rights[i], 0, vx, results1, fuel, i,
                                    );
                                    lemma_push_list_keeps_vertical(
                                        bodies, lefts, rights, rights[i], 0, vx, results1, fuel,
                                    );
                                }
                                assert(!row_has(tops[i], i));
                                lemma_carry_list_avoids(
                                    bodies, tops, tops[i], 0, Vec2i { x: vx, y: rec1.intrinsic->0.y }, pushed, fuel, i,
                                );
                            }
                            assert(st1.0[i] == rec1);
                            assert(st1.1[i] == true);
                        }
                    }
                },
                None => {},
            }
        }
        lemma_pass_isolated(bodies, lefts, rights, tops, bottoms, ivs, steps_pass, k + 1, st1, fuel, i);
    }
}

// ------------------------------------------------------------------
// Grounded stillness and unsupported fall.

/// Turn the edge-level seclusion hypotheses into the row-level ones the
/// isolation lemmas take.
proof fn lemma_rows_of_secluded(bodies: Seq<Body>, i: int)
    requires
        bodies.len() <= usize::MAX,
        0 <= i < bodies.len(),
        forall|j: int| 0 <= j < bodies.len() && #[trigger] left_edge(bodies, j, i) ==> bodies[j].role
            is Ground,
        forall|j: int| 0 <= j < bodies.len() && #[trigger] right_edge(bodies, j, i) ==> bodies[j].role
            is Ground,
        forall|j: int| 0 <= j < bodies.len() && #[trigger] top_edge(bodies, j, i) ==> bodies[j].role
            is Ground,
    ensures
        forall|e2: int| 0 <= e2 < bodies.len() && (row_has(#[trigger] left_rows(bodies)[e2], i)
            || row_has(right_rows(bodies)[e2], i)) ==> bodies[e2].role is Ground,
        forall|e2: int| 0 <= e2 < bodies.len() && row_has(#[trigger] top_rows(bodies)[e2], i)
            ==> bodies[e2].role is Ground,
{
    let n = bodies.len() as int;
    assert forall|e2: int| 0 <= e2 < bodies.len() && (row_has(#[trigger] left_rows(bodies)[e2], i)
        || row_has(right_rows(bodies)[e2], i)) implies bodies[e2].role is Ground by {
        crate::graph::lemma_left_row_has(bodies, e2, n, i);
        crate::graph::lemma_right_row_has(bodies, e2, n, i);
    }
    assert forall|e2: int| 0 <= e2 < bodies.len() && row_has(#[trigger] top_rows(bodies)[e2], i)
        implies bodies[e2].role is Ground by {
        lemma_top_row_has(bodies, e2, n, i);
    }
}

/// Grounded stillness, in any scene: a body that rests on ground alone,
/// whose horizontal neighbours (if any) are all ground, and whose intrinsic
/// rules put it at a standstill (it is supported and receives no net
/// horizontal input), resolves to an explicit standstill `(0, 0)` — never
/// `None` — and does not move, whatever every other body in the scene does.
/// The hypotheses hold again of the new store, so it stands still every
/// tick.
pub proof fn lemma_grounded_stillness(
    bodies: Seq<Body>,
    inp: PlayerInput,
    plan: StepPlan,
    scale: i64,
    i: int,
)
    requires
        all_wf(bodies),
        bodies.len() <= usize::MAX,
        0 < scale <= SCALE_LIMIT,
        0 <= i < bodies.len(),
        !(bodies[i].role is Ground),
        !(bodies[i].role is Step),
        forall|j: int| 0 <= j < bodies.len() && #[trigger] left_edge(bodies, j, i) ==> bodies[j].role
            is Ground,
        forall|j: int| 0 <= j < bodies.len() && #[trigger] right_edge(bodies, j, i) ==> bodies[j].role
            is Ground,
        forall|j: int| 0 <= j < bodies.len() && #[trigger] top_edge(bodies, j, i) ==> bodies[j].role
            is Ground,
        intrinsic_of(bodies, bottom_rows(bodies), i, inp, plan) == Some(Vec2i { x: 0i64, y: 0i64 }),
    ensures
        tick_spec(bodies, inp, plan, scale).len() == bodies.len(),
        tick_spec(bodies, inp, plan, scale)[i] == (Body {
            rect: bodies[i].rect,
            role: bodies[i].role,
            velocity: Some(Vec2i { x: 0i64, y: 0i64 }),
        }),
{
    let n = bodies.len();
    let lrows = left_rows(bodies);
    let rrows = right_rows(bodies);
    let trows = top_rows(bodies);
    let brows = bottom_rows(bodies);
    let ivs = intrinsics_of(bodies, inp, plan);
    let zero = Vec2i { x: 0i64, y: 0i64 };
    assert(ivs[i] == Some(zero));
    lemma_rows_of_secluded(bodies, i);
    let st0 = (init_results(n), init_visited(n), init_counts(n));
    let st1 = pass_from(bodies, lrows, rrows, trows, brows, ivs, false, 0, st0, n);
    lemma_pass_isolated(bodies, lrows, rrows, trows, brows, ivs, false, 0, st0, n, i);
    assert(!st0.1[i]);
    assert(st0.0[i] == Propagation::empty_spec());
    let rec1 = resolved_record(bodies, lrows, rrows, trows, brows, i, zero, st0.0[i], n);
    assert(st1.0[i] == rec1);
    assert(rec1 == Propagation {
        left_x_bound: None,
        right_x_bound: None,
        push: None,
        carry: None,
        intrinsic: Some(zero),
    });
    lemma_pass_isolated(bodies, lrows, rrows, trows, brows, ivs, true, 0, st1, n, i);
    let st = run_propagation_spec(bodies, lrows, rrows, trows, brows, ivs);
    assert(st.0[i] == rec1);
    let results = st.0;
    assert(final_velocity(results[i]) == Some(zero));
    let bodies1 = write_back_spec(bodies, results);
    assert(bodies1[i] == Body { rect: bodies[i].rect, role: bodies[i].role, velocity: Some(zero) });
    let bodies2 = integrate_all(bodies1, scale);
    assert(bodies[i].rect.wf());
    assert(bodies2[i] == bodies1[i]) by {
        assert(zero.x * scale == 0) by (nonlinear_arith)
            requires zero.x == 0;
        assert(zero.y * scale == 0) by (nonlinear_arith)
            requires zero.y == 0;
        assert(integrate_body(bodies1[i], scale) == bodies1[i]);
    }
    let bodies3 = update_steps_spec(bodies2, scale);
    assert(bodies3[i] == bodies2[i]);
}

/// Unsupported fall, in any scene: a body with nothing below it (an empty
/// support row), whose horizontal neighbours (if any) are all ground, and
/// whose intrinsic rules set it falling, resolves to exactly `(0, -1)` and
/// moves down by the time scale; its horizontal position does not change,
/// whatever every other body in the scene does.
pub proof fn lemma_unsupported_fall(
    bodies: Seq<Body>,
    inp: PlayerInput,
    plan: StepPlan,
    scale: i64,
    i: int,
)
    requires
        all_wf(bodies),
        bodies.len() <= usize::MAX,
        0 < scale <= SCALE_LIMIT,
        0 <= i < bodies.len(),
        !(bodies[i].role is Ground),
        !(bodies[i].role is Step),
        forall|j: int| 0 <= j < bodies.len() && #[trigger] left_edge(bodies, j, i) ==> bodies[j].role
            is Ground,
        forall|j: int| 0 <= j < bodies.len() && #[trigger] right_edge(bodies, j, i) ==> bodies[j].role
            is Ground,
        bottom_rows(bodies)[i].len() == 0,
        intrinsic_of(bodies, bottom_rows(bodies), i, inp, plan) == Some(Vec2i { x: 0i64, y: -1i64 }),
    ensures
        tick_spec(bodies, inp, plan, scale).len() == bodies.len(),
        tick_spec(bodies, inp, plan, scale)[i] == (Body {
            rect: Rect {
                center: Vec2i {
                    x: bodies[i].rect.center.x,
                    y: cap_pos_spec(bodies[i].rect.center.y - scale),
                },
                half_w: bodies[i].rect.half_w,
                half_h: bodies[i].rect.half_h,
            },
            role: bodies[i].role,
            velocity: Some(Vec2i { x: 0i64, y: -1i64 }),
        }),
{
    let n = bodies.len();
    let lrows = left_rows(bodies);
    let rrows = right_rows(bodies);
    let trows = top_rows(bodies);
    let brows = bottom_rows(bodies);
    let ivs = intrinsics_of(bodies, inp, plan);
    let fall = Vec2i { x: 0i64, y: -1i64 };
    assert(ivs[i] == Some(fall));
    // An empty support row means nobody registers `i` as a rider.
    assert forall|j: int| 0 <= j < bodies.len() && #[trigger] top_edge(bodies, j, i)
        implies bodies[j].role is Ground by {
        crate::graph::lemma_bottom_row_has(bodies, i, n as int, j);
        assert(row_has(brows[i], j));
    }
    lemma_rows_of_secluded(bodies, i);
    let st0 = (init_results(n), init_visited(n), init_counts(n));
    let st1 = pass_from(bodies, lrows, rrows, trows, brows, ivs, false, 0, st0, n);
    lemma_pass_isolated(bodies, lrows, rrows, trows, brows, ivs, false, 0, st0, n, i);
    assert(!st0.1[i]);
    assert(st0.0[i] == Propagation::empty_spec());
    // Nothing below: the fall is not blocked.
    assert(!blocked_down_spec(bodies, brows, i, n)) by {
        assert(n >= 1);
        assert(!any_down_from(bodies, brows, brows[i], 0, (n - 1) as nat));
    }
    let rec1 = resolved_record(bodies, lrows, rrows, trows, brows, i, fall, st0.0[i], n);
    assert(st1.0[i] == rec1);
    assert(rec1 == Propagation {
        left_x_bound: None,
        right_x_bound: None,
        push: None,
        carry: None,
        intrinsic: Some(fall),
    });
    lemma_pass_isolated(bodies, lrows, rrows, trows, brows, ivs, true, 0, st1, n, i);
    let st = run_propagation_spec(bodies, lrows, rrows, trows, brows, ivs);
    assert(st.0[i] == rec1);
    let results = st.0;
    assert(final_velocity(results[i]) == Some(fall));
    let bodies1 = write_back_spec(bodies, results);
    assert(bodies1[i] == Body { rect: bodies[i].rect, role: bodies[i].role, velocity: Some(fall) });
    let bodies2 = integrate_all(bodies1, scale);
    assert(bodies[i].rect.wf());
    let bodies3 = update_steps_spec(bodies2, scale);
    assert(bodies3[i] == bodies2[i]);
    assert(bodies2[i] == integrate_body(bodies1[i], scale));
}

// ------------------------------------------------------------------
// The arm cycle is closed.

/// Iterating the machine one more time is one more tick after the iterate.
proof fn lemma_arm_iter_snoc(esc: Rect, sh: int, x: int, y: int, arm: Arm, k: nat)
    ensures
        arm_cycle_iter(esc, sh, x, y, arm, k + 1) == {
            let s = arm_cycle_iter(esc, sh, x, y, arm, k);
            arm_cycle_tick(esc, sh, s.0, s.1, s.2)
        },
    decreases k,
{
    let s = arm_cycle_tick(esc, sh, x, y, arm);
    assert(arm_cycle_iter(esc, sh, x, y, arm, k + 1) == arm_cycle_iter(esc, sh, s.0, s.1, s.2, k));
    if k == 0 {
        assert(arm_cycle_iter(esc, sh, s.0, s.1, s.2, 0) == (s.0, s.1, s.2));
        assert(arm_cycle_iter(esc, sh, x, y, arm, 0) == (x, y, arm));
    } else {
        lemma_arm_iter_snoc(esc, sh, s.0, s.1, s.2, (k - 1) as nat);
        assert(arm_cycle_iter(esc, sh, x, y, arm, k) == arm_cycle_iter(
            esc,
            sh,
            s.0,
            s.1,
            s.2,
            (k - 1) as nat,
        ));
    }
}

/// Iterating `a + b` times is iterating `a` times, then `b` more.
proof fn lemma_arm_iter_add(esc: Rect, sh: int, x: int, y: int, arm: Arm, a: nat, b: nat)
    ensures
        arm_cycle_iter(esc, sh, x, y, arm, a + b) == {
            let s = arm_cycle_iter(esc, sh, x, y, arm, a);
            arm_cycle_iter(esc, sh, s.0, s.1, s.2, b)
        },
    decreases a,
{
    if a > 0 {
        let s = arm_cycle_tick(esc, sh, x, y, arm);
        lemma_arm_iter_add(esc, sh, s.0, s.1, s.2, (a - 1) as nat, b);
    }
}

/// Leg `A`: from the canonical start at the top-left, the step descends one
/// unit per tick for two step heights, then hands over to `B`.
proof fn lemma_arm_leg_a(esc: Rect, sh: int, k: int)
    requires
        sh >= 1,
        0 <= k <= 2 * sh,
    ensures
        arm_cycle_iter(esc, sh, esc.left() + sh, esc.top() - sh, Arm::A, k as nat) == (
            esc.left() + sh,
            esc.top() - sh - k,
            if k == 2 * sh {
                Arm::B
            } else {
                Arm::A
            },
        ),
    decreases k,
{
    if k > 0 {
        lemma_arm_leg_a(esc, sh, k - 1);
        lemma_arm_iter_snoc(esc, sh, esc.left() + sh, esc.top() - sh, Arm::A, (k - 1) as nat);
    }
}

/// Leg `B`: the step descends diagonally right until its bottom edge reaches
/// the escalator's bottom, then hands over to `C`.
proof fn lemma_arm_leg_b(esc: Rect, sh: int, k: int)
    requires
        sh >= 1,
        esc.half_w == esc.half_h,
        esc.half_w > 2 * sh,
        0 <= k <= 2 * esc.half_h - 4 * sh,
    ensures
        arm_cycle_iter(esc, sh, esc.left() + sh, esc.top() - 3 * sh, Arm::B, k as nat) == (
            esc.left() + sh + k,
            esc.top() - 3 * sh - k,
            if k == 2 * esc.half_h - 4 * sh {
                Arm::C
            } else {
                Arm::B
            },
        ),
    decreases k,
{
    if k > 0 {
        lemma_arm_leg_b(esc, sh, k - 1);
        lemma_arm_iter_snoc(esc, sh, esc.left() + sh, esc.top() - 3 * sh, Arm::B, (k - 1) as nat);
    }
}

/// Leg `C`: the step traverses right along the bottom until its right edge
/// reaches the escalator's right, then hands over to `D`.
proof fn lemma_arm_leg_c(esc: Rect, sh: int, k: int)
    requires
        sh >= 1,
        esc.half_w == esc.half_h,
        esc.half_w > 2 * sh,
        0 <= k <= 2 * sh,
    ensures
        arm_cycle_iter(esc, sh, esc.right() - 3 * sh, esc.bottom() + sh, Arm::C, k as nat) == (
            esc.right() - 3 * sh + k,
            esc.bottom() + sh,
            if k == 2 * sh {
                Arm::D
            } else {
                Arm::C
            },
        ),
    decreases k,
{
    if k > 0 {
        lemma_arm_leg_c(esc, sh, k - 1);
        lemma_arm_iter_snoc(esc, sh, esc.right() - 3 * sh, esc.bottom() + sh, Arm::C, (k - 1) as nat);
    }
}

/// Leg `D`: the step ascends diagonally left until its top edge reaches the
/// escalator's top, closing the loop back at `A`.
proof fn lemma_arm_leg_d(esc: Rect, sh: int, k: int)
    requires
        sh >= 1,
        esc.half_w == esc.half_h,
        esc.half_w > 2 * sh,
        0 <= k <= 2 * esc.half_h - 2 * sh,
    ensures
        arm_cycle_iter(esc, sh, esc.right() - sh, esc.bottom() + sh, Arm::D, k as nat) == (
            esc.right() - sh - k,
            esc.bottom() + sh + k,
            if k == 2 * esc.half_h - 2 * sh {
                Arm::A
            } else {
                Arm::D
            },
        ),
    decreases k,
{
    if k > 0 {
        lemma_arm_leg_d(esc, sh, k - 1);
        lemma_arm_iter_snoc(esc, sh, esc.right() - sh, esc.bottom() + sh, Arm::D, (k - 1) as nat);
    }
}

/// One full geometric loop of the arm state machine is closed: a square step
/// started in arm `A` at the canonical top-left position of a square
/// escalator returns, after exactly the loop length the track strategy uses,
/// to arm `A` at its original position — no drift in steady state. (An
/// escalator only two step heights tall has no diagonal leg and overshoots
/// its bottom, so it is left out.)
pub proof fn lemma_arm_cycle_closed(esc: Rect, sh: int)
    requires
        sh >= 1,
        esc.half_w == esc.half_h,
        esc.half_w > 2 * sh,
    ensures
        arm_cycle_iter(
            esc,
            sh,
            esc.left() + sh,
            esc.top() - sh,
            Arm::A,
            track_loop_len(esc.half_w as int, sh) as nat,
        ) == (esc.left() + sh, esc.top() - sh, Arm::A),
{
    let eh = esc.half_w as int;
    let x0 = esc.left() + sh;
    let y0 = esc.top() - sh;
    let d_a = 2 * sh;
    let d_b = 2 * eh - 4 * sh;
    let d_c = 2 * sh;
    let d_d = 2 * eh - 2 * sh;
    lemma_arm_leg_a(esc, sh, d_a);
    assert(arm_cycle_iter(esc, sh, x0, y0, Arm::A, d_a as nat) == (x0, esc.top() - 3 * sh, Arm::B));
    lemma_arm_leg_b(esc, sh, d_b);
    assert(arm_cycle_iter(esc, sh, x0, esc.top() - 3 * sh, Arm::B, d_b as nat) == (
        esc.right() - 3 * sh,
        esc.bottom() + sh,
        Arm::C,
    ));
    lemma_arm_leg_c(esc, sh, d_c);
    assert(arm_cycle_iter(esc, sh, esc.right() - 3 * sh, esc.bottom() + sh, Arm::C, d_c as nat) == (
        esc.right() - sh,
        esc.bottom() + sh,
        Arm::D,
    ));
    lemma_arm_leg_d(esc, sh, d_d);
    assert(arm_cycle_iter(esc, sh, esc.right() - sh, esc.bottom() + sh, Arm::D, d_d as nat) == (
        x0,
        y0,
        Arm::A,
    ));
    lemma_arm_iter_add(esc, sh, x0, y0, Arm::A, d_a as nat, d_b as nat);
    lemma_arm_iter_add(esc, sh, x0, y0, Arm::A, (d_a + d_b) as nat, d_c as nat);
    lemma_arm_iter_add(esc, sh, x0, y0, Arm::A, (d_a + d_b + d_c) as nat, d_d as nat);
    assert(d_a + d_b + d_c + d_d == 4 * eh - 2 * sh);
}

} // verus!
