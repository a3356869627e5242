use adventure_core::behavior::ColliderBehavior;
use adventure_core::character::Character;
use adventure_core::collider::{Collider, Collision};
use adventure_core::game::{DialogueSpec, DialogueUiType};
use adventure_core::geometry::Aabb;
use adventure_core::motion::{delta_along, move_actor, query, z_from_y, Body};

fn body(entity: u64, scene: u64, x: i64, y: i64, behaviors: Vec<ColliderBehavior>) -> Body {
    Body {
        entity,
        name: format!("object{}", entity),
        scene,
        visible: true,
        x,
        y,
        z: 0,
        collider: Collider::new(behaviors, 5, 5, 0, 0),
    }
}

fn walker(vx: i32, vy: i32, speed: i32) -> Character {
    let mut c = Character::default();
    c.velocity_x = vx;
    c.velocity_y = vy;
    c.movement_speed = speed;
    c
}

#[test]
fn empty_collider_never_answers() {
    let c = Collider::new(vec![], 10, 10, 0, 0);
    let other = Aabb { min_x: -1, min_y: -1, max_x: 1, max_y: 1 };
    assert!(c.intersect(0, 0, &other).is_none());
    let world = vec![body(2, 1, 0, 0, vec![])];
    assert!(query(&world, 1, 1, &other).is_none());
}

#[test]
fn emptied_collider_stops_answering() {
    let mut c = Collider::single(ColliderBehavior::Collect, 10, 10, 0, 0);
    let other = Aabb { min_x: -1, min_y: -1, max_x: 1, max_y: 1 };
    assert!(c.intersect(0, 0, &other).is_some());
    c.remove_behavior(&ColliderBehavior::Collect);
    assert!(c.behaviors.is_empty());
    assert!(c.intersect(0, 0, &other).is_none());
}

#[test]
fn collider_keeps_each_tag_once() {
    let c = Collider::new(
        vec![ColliderBehavior::Obstruct, ColliderBehavior::Collect, ColliderBehavior::Obstruct],
        1,
        1,
        0,
        0,
    );
    assert_eq!(c.behaviors.len(), 2);
    assert!(c.has_behavior(&ColliderBehavior::Obstruct));
    assert!(c.has_behavior(&ColliderBehavior::Collect));
}

#[test]
fn bounding_volume_adds_offset_and_delta() {
    let c = Collider::new(vec![ColliderBehavior::Obstruct], 3, 4, 10, 20);
    let v = c.bounding_volume_with_translation(100, 200, 1, -2);
    assert_eq!(v, Aabb { min_x: 108, min_y: 214, max_x: 114, max_y: 222 });
    let w = c.bounding_volume(0, 0);
    assert_eq!(w, Aabb { min_x: 7, min_y: 16, max_x: 13, max_y: 24 });
}

#[test]
fn touching_boxes_intersect() {
    let a = Aabb { min_x: 0, min_y: 0, max_x: 10, max_y: 10 };
    let b = Aabb { min_x: 10, min_y: 0, max_x: 20, max_y: 10 };
    let c = Aabb { min_x: 11, min_y: 0, max_x: 20, max_y: 10 };
    assert!(a.intersects(&b));
    assert!(!a.intersects(&c));
}

#[test]
fn obstruction_found_in_union() {
    let mut u = Collision::empty();
    assert!(!u.is_obstruction());
    u.insert_behavior(ColliderBehavior::Collect);
    assert!(!u.is_obstruction());
    u.insert_behavior(ColliderBehavior::Obstruct);
    assert!(u.is_obstruction());
}

#[test]
fn obstructed_actor_stays() {
    let mut actor = body(1, 1, 0, 0, vec![]);
    actor.z = 42;
    let mut ch = walker(1, 0, 3);
    let world = vec![
        body(2, 1, 15, 0, vec![ColliderBehavior::Collect]),
        body(3, 1, 14, 0, vec![ColliderBehavior::Obstruct]),
    ];
    let events = move_actor(&mut actor, &mut ch, &world, 1, 2);
    assert_eq!(actor.x, 0);
    assert_eq!(actor.y, 0);
    assert_eq!(actor.z, 42);
    assert_eq!(events.len(), 2);
    assert!(ch.collision.is_obstruction());
}

#[test]
fn free_actor_moves_by_velocity_dt_speed() {
    let mut actor = body(1, 1, 0, 0, vec![]);
    let mut ch = walker(1, -2, 3);
    let world = vec![
        body(2, 1, 6, -12, vec![ColliderBehavior::Collect]),
        body(3, 1, 8, -12, vec![ColliderBehavior::Script("hi".to_string())]),
        body(4, 1, 500, 500, vec![ColliderBehavior::Obstruct]),
    ];
    let events = move_actor(&mut actor, &mut ch, &world, 1, 2);
    assert_eq!(actor.x, 6);
    assert_eq!(actor.y, -12);
    assert_eq!(actor.z, z_from_y(-12));
    assert_eq!(actor.z, 11);
    assert_eq!(events.len(), 2);
    assert_eq!(events[0].actor, 1);
    assert_eq!(events[0].object, 2);
    assert_eq!(events[1].object, 3);
    assert_eq!(events[0].behaviors, vec![ColliderBehavior::Collect]);
    assert_eq!(ch.collision.behaviors.len(), 2);
}

#[test]
fn other_scenes_and_self_are_ignored() {
    let mut actor = body(1, 1, 0, 0, vec![ColliderBehavior::Obstruct]);
    let mut ch = walker(1, 0, 1);
    let world = vec![
        body(1, 1, 1, 0, vec![ColliderBehavior::Obstruct]),
        body(2, 7, 1, 0, vec![ColliderBehavior::Obstruct]),
    ];
    let events = move_actor(&mut actor, &mut ch, &world, 1, 1);
    assert!(events.is_empty());
    assert_eq!(actor.x, 1);
}

#[test]
fn zero_move_queries_nothing() {
    let mut actor = body(1, 1, 0, 0, vec![]);
    let mut ch = walker(0, 0, 5);
    let world = vec![body(2, 1, 0, 0, vec![ColliderBehavior::Obstruct])];
    let events = move_actor(&mut actor, &mut ch, &world, 1, 16);
    assert!(events.is_empty());
    assert_eq!(actor.x, 0);
    assert!(!ch.collision.is_obstruction());
}

#[test]
fn delta_is_exact_product() {
    assert_eq!(delta_along(-3, 16, 250), -12000);
    assert_eq!(delta_along(i32::MAX, i32::MAX, i32::MIN), (i32::MAX as i128) * (i32::MAX as i128) * (i32::MIN as i128));
}

#[test]
fn behaviors_compare_by_content() {
    let a = ColliderBehavior::Dialogue(DialogueSpec {
        node_name: "x".to_string(),
        ui_type: DialogueUiType::Notice,
        auto_display: true,
    });
    let b = a.copied();
    assert_eq!(a, b);
    assert_ne!(a, ColliderBehavior::Load { path: "x".to_string() });
}
