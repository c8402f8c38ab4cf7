use escalators::body::{Arm, Role, World};
use escalators::geom::{Rect, Vec2i};
use escalators::intrinsic::{PlayerInput, StepPlan};
use escalators::tick::tick;

fn rect_at(x: i64, y: i64, hw: i64, hh: i64) -> Rect {
    Rect { center: Vec2i { x, y }, half_w: hw, half_h: hh }
}

fn no_keys() -> PlayerInput {
    PlayerInput { left: false, right: false }
}

fn velocity(world: &World, id: usize) -> Option<(i64, i64)> {
    world.bodies[id].velocity.map(|v| (v.x, v.y))
}

fn center(world: &World, id: usize) -> (i64, i64) {
    let c = world.bodies[id].rect.center;
    (c.x, c.y)
}

#[test]
fn grounded_crate_stands_still() {
    let mut world = World::new();
    let ground = world.spawn_ground(rect_at(0, 0, 100, 10));
    let crate_id = world.spawn_crate(rect_at(0, 25, 15, 15));
    let before = center(&world, crate_id);
    for _ in 0..5 {
        tick(&mut world, no_keys(), StepPlan::ByArm, 1);
        assert_eq!(velocity(&world, crate_id), Some((0, 0)));
        assert_eq!(velocity(&world, ground), None);
        assert_eq!(center(&world, crate_id), before);
        assert_eq!(center(&world, ground), (0, 0));
    }
}

#[test]
fn unsupported_crate_falls() {
    let mut world = World::new();
    let crate_id = world.spawn_crate(rect_at(0, 100, 10, 10));
    tick(&mut world, no_keys(), StepPlan::ByArm, 1);
    assert_eq!(velocity(&world, crate_id), Some((0, -1)));
    assert_eq!(center(&world, crate_id), (0, 99));
    tick(&mut world, no_keys(), StepPlan::ByArm, 3);
    assert_eq!(velocity(&world, crate_id), Some((0, -1)));
    assert_eq!(center(&world, crate_id), (0, 96));
}

#[test]
fn push_propagates_through_chain() {
    let mut world = World::new();
    let _ground = world.spawn_ground(rect_at(0, 0, 100, 10));
    let player = world.spawn_player(rect_at(0, 25, 15, 15));
    let crate1 = world.spawn_crate(rect_at(-30, 25, 15, 15));
    let crate2 = world.spawn_crate(rect_at(-60, 25, 15, 15));
    let input = PlayerInput { left: true, right: false };
    tick(&mut world, input, StepPlan::ByArm, 1);
    assert_eq!(velocity(&world, player), Some((-1, 0)));
    assert_eq!(velocity(&world, crate1), Some((-1, 0)));
    assert_eq!(velocity(&world, crate2), Some((-1, 0)));
    assert_eq!(center(&world, player), (-1, 25));
    assert_eq!(center(&world, crate1), (-31, 25));
    assert_eq!(center(&world, crate2), (-61, 25));
}

#[test]
fn wall_blocks_whole_chain() {
    let mut world = World::new();
    let _ground = world.spawn_ground(rect_at(0, 0, 100, 10));
    let player = world.spawn_player(rect_at(0, 25, 15, 15));
    let crate1 = world.spawn_crate(rect_at(-30, 25, 15, 15));
    let crate2 = world.spawn_crate(rect_at(-60, 25, 15, 15));
    let _wall = world.spawn_ground(rect_at(-85, 25, 10, 15));
    let input = PlayerInput { left: true, right: false };
    tick(&mut world, input, StepPlan::ByArm, 1);
    assert_eq!(velocity(&world, player), Some((0, 0)));
    assert_eq!(velocity(&world, crate1), Some((0, 0)));
    assert_eq!(velocity(&world, crate2), Some((0, 0)));
    assert_eq!(center(&world, player), (0, 25));
    assert_eq!(center(&world, crate1), (-30, 25));
    assert_eq!(center(&world, crate2), (-60, 25));
}

#[test]
fn crate_on_step_inherits_step_velocity() {
    let mut world = World::new();
    let _ground = world.spawn_ground(rect_at(0, -40, 100, 10));
    let esc = world.spawn_escalator(rect_at(0, 0, 30, 30));
    let step = world.spawn_step(esc, rect_at(0, -20, 10, 10), Arm::C, None);
    let crate_id = world.spawn_crate(rect_at(0, 0, 10, 10));
    tick(&mut world, no_keys(), StepPlan::ByArm, 1);
    assert_eq!(velocity(&world, step), Some((1, 0)));
    assert_eq!(velocity(&world, crate_id), Some((1, 0)));
    assert_eq!(velocity(&world, esc), Some((0, 0)));
    assert_eq!(center(&world, step), (1, -20));
    assert_eq!(center(&world, crate_id), (1, 0));
}

#[test]
fn pushed_crate_falls_off_edge() {
    let mut world = World::new();
    let _shelf = world.spawn_ground(rect_at(-20, 0, 20, 10));
    let player = world.spawn_player(rect_at(-10, 20, 10, 10));
    let crate_id = world.spawn_crate(rect_at(10, 20, 10, 10));
    let input = PlayerInput { left: false, right: true };
    tick(&mut world, input, StepPlan::ByArm, 1);
    assert_eq!(velocity(&world, player), Some((1, 0)));
    assert_eq!(velocity(&world, crate_id), Some((1, -1)));
    assert_eq!(center(&world, crate_id), (11, 19));
}

#[test]
fn dense_stack_is_visited_once_each() {
    let mut world = World::new();
    let ground = world.spawn_ground(rect_at(0, 0, 100, 10));
    let c1 = world.spawn_crate(rect_at(-10, 20, 10, 10));
    let c2 = world.spawn_crate(rect_at(10, 20, 10, 10));
    let c3 = world.spawn_crate(rect_at(-10, 40, 10, 10));
    let c4 = world.spawn_crate(rect_at(10, 40, 10, 10));
    let player = world.spawn_player(rect_at(-30, 20, 10, 10));
    let input = PlayerInput { left: false, right: true };
    let counts = tick(&mut world, input, StepPlan::ByArm, 1);
    assert_eq!(counts.len(), 6);
    assert_eq!(counts[ground], 0);
    for id in [c1, c2, c3, c4, player] {
        assert_eq!(counts[id], 1);
    }
    assert_eq!(velocity(&world, player), Some((1, 0)));
    assert_eq!(velocity(&world, c1), Some((1, 0)));
    assert_eq!(velocity(&world, c2), Some((1, 0)));
    assert_eq!(velocity(&world, c3), Some((0, 0)));
    assert_eq!(velocity(&world, c4), Some((0, 0)));
}

#[test]
fn opposed_keys_cancel() {
    let mut world = World::new();
    let _ground = world.spawn_ground(rect_at(0, 0, 100, 10));
    let player = world.spawn_player(rect_at(0, 25, 15, 15));
    let input = PlayerInput { left: true, right: true };
    tick(&mut world, input, StepPlan::ByArm, 1);
    assert_eq!(velocity(&world, player), Some((0, 0)));
    assert_eq!(center(&world, player), (0, 25));
}

#[test]
fn falling_stack_falls_together() {
    let mut world = World::new();
    let lower = world.spawn_crate(rect_at(0, 20, 10, 10));
    let upper = world.spawn_crate(rect_at(0, 40, 10, 10));
    tick(&mut world, no_keys(), StepPlan::ByArm, 1);
    assert_eq!(velocity(&world, lower), Some((0, -1)));
    assert_eq!(velocity(&world, upper), Some((0, -1)));
    assert_eq!(center(&world, lower), (0, 19));
    assert_eq!(center(&world, upper), (0, 39));
}
