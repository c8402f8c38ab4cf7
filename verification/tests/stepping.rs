use escalators::body::{Arm, Role, Track, World};
use escalators::geom::{Rect, Vec2i};
use escalators::intrinsic::{PlayerInput, StepPlan};
use escalators::stepper::{arm_velocity, next_arm, step_velocity, steps};
use escalators::tick::tick;

fn square_at(x: i64, y: i64, h: i64) -> Rect {
    Rect { center: Vec2i { x, y }, half_w: h, half_h: h }
}

fn quiet() -> PlayerInput {
    PlayerInput { left: false, right: false }
}

fn arm_of(world: &World, id: usize) -> Arm {
    match world.bodies[id].role {
        Role::Step { arm, .. } => arm,
        _ => panic!("not a step"),
    }
}

#[test]
fn arm_velocities() {
    assert_eq!((arm_velocity(Arm::A).x, arm_velocity(Arm::A).y), (0, -1));
    assert_eq!((arm_velocity(Arm::B).x, arm_velocity(Arm::B).y), (1, -1));
    assert_eq!((arm_velocity(Arm::C).x, arm_velocity(Arm::C).y), (1, 0));
    assert_eq!((arm_velocity(Arm::D).x, arm_velocity(Arm::D).y), (-1, 1));
}

#[test]
fn arm_transitions_fire_at_thresholds() {
    let esc = square_at(0, 0, 30);
    // A -> B once the bottom edge has descended two step heights below the top.
    assert_eq!(next_arm(Arm::A, &square_at(-20, 1, 10), &esc), Arm::A);
    assert_eq!(next_arm(Arm::A, &square_at(-20, 0, 10), &esc), Arm::B);
    // B -> C once the bottom edge reaches the escalator's bottom.
    assert_eq!(next_arm(Arm::B, &square_at(0, -19, 10), &esc), Arm::B);
    assert_eq!(next_arm(Arm::B, &square_at(0, -20, 10), &esc), Arm::C);
    // C -> D once the right edge reaches the escalator's right.
    assert_eq!(next_arm(Arm::C, &square_at(19, -20, 10), &esc), Arm::C);
    assert_eq!(next_arm(Arm::C, &square_at(20, -20, 10), &esc), Arm::D);
    // D -> A once the top edge reaches the escalator's top.
    assert_eq!(next_arm(Arm::D, &square_at(-20, 19, 10), &esc), Arm::D);
    assert_eq!(next_arm(Arm::D, &square_at(-20, 20, 10), &esc), Arm::A);
}

#[test]
fn arm_cycle_returns_to_start() {
    let mut world = World::new();
    let _ground = world.spawn_ground(Rect {
        center: Vec2i { x: 0, y: -40 },
        half_w: 100,
        half_h: 10,
    });
    let esc = world.spawn_escalator(square_at(0, 0, 30));
    let step = world.spawn_step(esc, square_at(-20, 20, 10), Arm::A, None);
    // One full loop: 4 * 30 - 2 * 10 ticks at unit scale.
    let perimeter = 100;
    for t in 0..perimeter {
        tick(&mut world, quiet(), StepPlan::ByArm, 1);
        if t == 19 {
            // Leg A has descended two step heights.
            assert_eq!(arm_of(&world, step), Arm::B);
            assert_eq!(world.bodies[step].rect.center.x, -20);
            assert_eq!(world.bodies[step].rect.center.y, 0);
        }
    }
    assert_eq!(arm_of(&world, step), Arm::A);
    assert_eq!(world.bodies[step].rect.center.x, -20);
    assert_eq!(world.bodies[step].rect.center.y, 20);
    assert_eq!(world.bodies[esc].rect.center.x, 0);
    assert_eq!(world.bodies[esc].rect.center.y, 0);
}

#[test]
fn track_target_corrects_position() {
    let esc = square_at(0, 0, 30);
    // At track coordinate 0 the loop starts at the top-left slot: a step
    // standing there does not move.
    let step = square_at(-20, 20, 10);
    let t = Track { position: 0, length: 100 };
    let v = step_velocity(&esc, &step, &t);
    assert_eq!((v.x, v.y), (0, 0));
    // Mid second leg: t = 30 places the step at offset (-10, -10); a step
    // displaced to (-12, -8) is corrected onto the loop in one unit tick.
    let astray = square_at(-12, -8, 10);
    let t2 = Track { position: 30, length: 100 };
    let v2 = step_velocity(&esc, &astray, &t2);
    assert_eq!((v2.x, v2.y), (2, -2));
    // Fourth leg: t = 90 places the step at offset (-10, 10).
    let step3 = square_at(0, 0, 10);
    let t3 = Track { position: 90, length: 100 };
    let v3 = step_velocity(&esc, &step3, &t3);
    assert_eq!((v3.x, v3.y), (-10, 10));
}

#[test]
fn track_advances_and_wraps() {
    let mut world = World::new();
    let esc = world.spawn_escalator(square_at(0, 0, 30));
    let track = Track { position: 98, length: 100 };
    let step = world.spawn_step(esc, square_at(-20, 20, 10), Arm::A, Some(track));
    tick(&mut world, quiet(), StepPlan::ByTrack, 1);
    match world.bodies[step].role {
        Role::Step { track: Some(t), .. } => assert_eq!((t.position, t.length), (99, 100)),
        _ => panic!("step lost its track"),
    }
    tick(&mut world, quiet(), StepPlan::ByTrack, 1);
    match world.bodies[step].role {
        Role::Step { track: Some(t), .. } => assert_eq!((t.position, t.length), (0, 100)),
        _ => panic!("step lost its track"),
    }
}

#[test]
fn step_layout_for_three_step_escalator() {
    let esc_rect = square_at(0, 0, 30);
    let laid = steps(Vec2i { x: 0, y: 0 }, 30, 10);
    assert_eq!(laid.len(), 5);
    let expect = [
        (-20, 20, Arm::A, 0),
        (-20, 0, Arm::B, 20),
        (0, -20, Arm::C, 40),
        (20, -20, Arm::D, 60),
        (0, 0, Arm::D, 80),
    ];
    for (k, (x, y, arm, tp)) in expect.iter().enumerate() {
        let (c, a, t) = laid[k];
        assert_eq!((c.x, c.y), (*x, *y));
        assert_eq!(a, *arm);
        assert_eq!((t.position, t.length), (*tp, 100));
        // The layout and the track parametrization agree: a step laid out on
        // its slot is already exactly where its track coordinate places it.
        let v = step_velocity(&esc_rect, &square_at(c.x, c.y, 10), &t);
        assert_eq!((v.x, v.y), (0, 0));
    }
}

#[test]
fn full_escalator_advances_every_track() {
    let mut world = World::new();
    let ec = Vec2i { x: 0, y: 0 };
    let esc = world.spawn_escalator(square_at(0, 0, 100));
    let laid = steps(ec, 100, 25);
    assert_eq!(laid.len(), 7);
    let mut step_ids = Vec::new();
    for (center, arm, track) in laid {
        step_ids.push(world.spawn_step(esc, square_at(center.x, center.y, 25), arm, Some(track)));
    }
    let laid_centers: Vec<(i64, i64)> = step_ids
        .iter()
        .map(|id| (world.bodies[*id].rect.center.x, world.bodies[*id].rect.center.y))
        .collect();
    tick(&mut world, quiet(), StepPlan::ByTrack, 1);
    let mut positions = Vec::new();
    for (k, id) in step_ids.iter().enumerate() {
        match world.bodies[*id].role {
            Role::Step { track: Some(t), .. } => {
                assert_eq!(t.position, (k as i64 * 50 + 1) % 350);
                assert_eq!(t.length, 350);
                positions.push(t.position);
            },
            _ => panic!("step lost its track"),
        }
        // Laid out on their slots, the steps have no catch-up to do: they
        // only ride the unsupported frame, which falls one unit.
        let c = world.bodies[*id].rect.center;
        assert_eq!((c.x, c.y), (laid_centers[k].0, laid_centers[k].1 - 1));
    }
    assert_eq!(world.bodies[esc].rect.center.y, -1);
    // Evenly spaced track coordinates stay distinct.
    for a in 0..positions.len() {
        for b in 0..a {
            assert_ne!(positions[a], positions[b]);
        }
    }
}

#[test]
fn descending_step_still_blocks_but_does_not_relay() {
    let mut world = World::new();
    let _ground = world.spawn_ground(Rect {
        center: Vec2i { x: 0, y: -40 },
        half_w: 100,
        half_h: 10,
    });
    let esc = world.spawn_escalator(square_at(0, 0, 30));
    // A step in arm A is inactive: it descends but hands no carry to a rider.
    let step = world.spawn_step(esc, square_at(-20, 20, 10), Arm::A, None);
    let crate_id = world.spawn_crate(square_at(-20, 40, 10));
    tick(&mut world, quiet(), StepPlan::ByArm, 1);
    assert_eq!(world.bodies[step].velocity.map(|v| (v.x, v.y)), Some((0, -1)));
    // The crate is supported by the step, so it resolves to a standstill,
    // but inherits nothing from the inactive step.
    assert_eq!(world.bodies[crate_id].velocity.map(|v| (v.x, v.y)), Some((0, 0)));
}
