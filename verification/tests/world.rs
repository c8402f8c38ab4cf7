use escalators::body::{Arm, Role, World};
use escalators::geom::{is_atop, is_beside, Rect, Vec2i, VEL_LIMIT};
use escalators::graph::build_graph;
use escalators::intrinsic::{falling_velocity, player_velocity, PlayerInput};
use escalators::propagate::{blocked_up, test_left, velocity_of, Propagation};
use escalators::tick::reset_velocity;

fn boxed(x: i64, y: i64, hw: i64, hh: i64) -> Rect {
    Rect { center: Vec2i { x, y }, half_w: hw, half_h: hh }
}

#[test]
fn atop_needs_exact_edge_contact_and_overlap() {
    let base = boxed(0, 0, 10, 10);
    assert!(is_atop(&boxed(0, 20, 10, 10), &base));
    // One unit of clearance is no contact.
    assert!(!is_atop(&boxed(0, 21, 10, 10), &base));
    // Overlap in x is half-open: sharing only a corner does not count.
    assert!(!is_atop(&boxed(20, 20, 10, 10), &base));
    assert!(is_atop(&boxed(19, 20, 10, 10), &base));
}

#[test]
fn beside_needs_exact_edge_contact_and_overlap() {
    let left = boxed(0, 0, 10, 10);
    assert!(is_beside(&left, &boxed(20, 0, 10, 10)));
    assert!(!is_beside(&left, &boxed(21, 0, 10, 10)));
    // Sharing only a corner does not count.
    assert!(!is_beside(&left, &boxed(20, 20, 10, 10)));
    assert!(is_beside(&left, &boxed(20, 19, 10, 10)));
    // The relation is oriented.
    assert!(!is_beside(&boxed(20, 0, 10, 10), &left));
}

#[test]
fn graph_records_the_four_relations() {
    let mut world = World::new();
    let ground = world.spawn_ground(boxed(0, 0, 40, 10));
    let left_crate = world.spawn_crate(boxed(-10, 20, 10, 10));
    let right_crate = world.spawn_crate(boxed(10, 20, 10, 10));
    let g = build_graph(&world);
    assert_eq!(g.lefts[right_crate], vec![left_crate]);
    assert_eq!(g.rights[left_crate], vec![right_crate]);
    assert_eq!(g.bottoms[left_crate], vec![ground]);
    assert_eq!(g.bottoms[right_crate], vec![ground]);
    assert_eq!(g.tops[ground], vec![left_crate, right_crate]);
    assert_eq!(g.lefts[ground], Vec::<usize>::new());
    assert_eq!(g.tops[left_crate], Vec::<usize>::new());
}

#[test]
fn step_and_escalator_are_linked_mechanically() {
    let mut world = World::new();
    let esc = world.spawn_escalator(boxed(0, 0, 30, 30));
    // The step floats free of the frame geometrically.
    let step = world.spawn_step(esc, boxed(-20, 0, 10, 10), Arm::B, None);
    let g = build_graph(&world);
    assert_eq!(g.tops[esc], vec![step]);
    assert_eq!(g.bottoms[step], vec![esc]);
    // A crate whose right edge meets both the frame and the step is beside
    // the step alone: escalators take no part in the horizontal relations.
    let crate_id = world.spawn_crate(boxed(-40, 0, 10, 10));
    let g2 = build_graph(&world);
    assert_eq!(g2.rights[crate_id], vec![step]);
    assert_eq!(g2.lefts[step], vec![crate_id]);
    assert_eq!(g2.lefts[esc], Vec::<usize>::new());
}

#[test]
fn intrinsic_rules() {
    let fall = falling_velocity(false);
    assert_eq!((fall.x, fall.y), (0, -1));
    let still = falling_velocity(true);
    assert_eq!((still.x, still.y), (0, 0));
    let run = player_velocity(PlayerInput { left: true, right: false }, true);
    assert_eq!((run.x, run.y), (-1, 0));
    let drift = player_velocity(PlayerInput { left: false, right: true }, false);
    assert_eq!((drift.x, drift.y), (1, -1));
}

#[test]
fn left_test_walks_the_chain_to_ground() {
    let mut world = World::new();
    let wall = world.spawn_ground(boxed(-40, 0, 10, 10));
    let c1 = world.spawn_crate(boxed(-20, 0, 10, 10));
    let c2 = world.spawn_crate(boxed(0, 0, 10, 10));
    let g = build_graph(&world);
    let fuel = world.len();
    assert_eq!(test_left(&world.bodies, &g.lefts, c2, fuel), Some(0));
    assert_eq!(test_left(&world.bodies, &g.lefts, c1, fuel), Some(0));
    assert_eq!(test_left(&world.bodies, &g.lefts, wall, fuel), Some(0));
    // A free-standing crate imposes no bound.
    let mut free = World::new();
    let lone = free.spawn_crate(boxed(0, 0, 10, 10));
    let g2 = build_graph(&free);
    assert_eq!(test_left(&free.bodies, &g2.lefts, lone, free.len()), None);
}

#[test]
fn ceiling_blocks_upward_chains() {
    let mut world = World::new();
    let crate_id = world.spawn_crate(boxed(0, 0, 10, 10));
    let _ceiling = world.spawn_ground(boxed(0, 20, 10, 10));
    let g = build_graph(&world);
    assert!(blocked_up(&world.bodies, &g.tops, crate_id, world.len()));
    let mut open_air = World::new();
    let lone = open_air.spawn_crate(boxed(0, 0, 10, 10));
    let g2 = build_graph(&open_air);
    assert!(!blocked_up(&open_air.bodies, &g2.tops, lone, open_air.len()));
}

#[test]
fn resolved_velocity_sums_clamps_and_saturates() {
    // Contributions sum.
    let p = Propagation {
        left_x_bound: None,
        right_x_bound: None,
        push: Some(1),
        carry: Some(Vec2i { x: 1, y: -1 }),
        intrinsic: Some(Vec2i { x: 1, y: 0 }),
    };
    let v = velocity_of(&p).unwrap();
    assert_eq!((v.x, v.y), (3, -1));
    // Bounds clamp the horizontal total.
    let q = Propagation { left_x_bound: Some(-1), right_x_bound: Some(2), ..p };
    let w = velocity_of(&q).unwrap();
    assert_eq!((w.x, w.y), (2, -1));
    // Components saturate at the cap.
    let r = Propagation {
        left_x_bound: None,
        right_x_bound: None,
        push: Some(900),
        carry: Some(Vec2i { x: 900, y: 0 }),
        intrinsic: Some(Vec2i { x: 900, y: 0 }),
    };
    let u = velocity_of(&r).unwrap();
    assert_eq!(u.x, VEL_LIMIT);
    // An untouched record resolves to nothing.
    assert_eq!(velocity_of(&Propagation::empty()), None);
}

#[test]
fn reset_clears_all_velocities() {
    let mut world = World::new();
    let a = world.spawn_crate(boxed(0, 100, 10, 10));
    let b = world.spawn_crate(boxed(0, 200, 10, 10));
    escalators::tick::tick(
        &mut world,
        PlayerInput { left: false, right: false },
        escalators::intrinsic::StepPlan::ByArm,
        1,
    );
    assert!(world.bodies[a].velocity.is_some());
    reset_velocity(&mut world);
    assert_eq!(world.bodies[a].velocity, None);
    assert_eq!(world.bodies[b].velocity, None);
}

#[test]
fn empty_world_ticks() {
    let mut world = World::new();
    let counts = escalators::tick::tick(
        &mut world,
        PlayerInput { left: false, right: false },
        escalators::intrinsic::StepPlan::ByArm,
        1,
    );
    assert_eq!(counts.len(), 0);
    assert_eq!(world.len(), 0);
}

#[test]
fn position_saturates_at_world_edge() {
    let mut world = World::new();
    let c = world.spawn_crate(boxed(0, -escalators::geom::POS_LIMIT, 10, 10));
    escalators::tick::tick(
        &mut world,
        PlayerInput { left: false, right: false },
        escalators::intrinsic::StepPlan::ByArm,
        1,
    );
    assert_eq!(world.bodies[c].velocity.map(|v| (v.x, v.y)), Some((0, -1)));
    assert_eq!(world.bodies[c].rect.center.y, -escalators::geom::POS_LIMIT);
}

#[test]
fn roles_are_kept_on_spawn() {
    let mut world = World::new();
    let g = world.spawn_ground(boxed(0, 0, 10, 10));
    let p = world.spawn_player(boxed(0, 20, 10, 10));
    let c = world.spawn_crate(boxed(0, 40, 10, 10));
    let e = world.spawn_escalator(boxed(100, 0, 30, 30));
    let s = world.spawn_step(e, boxed(80, 20, 10, 10), Arm::A, None);
    assert_eq!(world.len(), 5);
    assert!(matches!(world.bodies[g].role, Role::Ground));
    assert!(matches!(world.bodies[p].role, Role::Player));
    assert!(matches!(world.bodies[c].role, Role::Crate));
    assert!(matches!(world.bodies[e].role, Role::Escalator));
    assert!(matches!(world.bodies[s].role, Role::Step { escalator, arm: Arm::A, track: None } if escalator == e));
    assert_eq!(world.bodies[s].velocity, None);
}
