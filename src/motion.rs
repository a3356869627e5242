use vstd::prelude::*;

use crate::behavior::{distinct_tags, tag_set, BehaviorView, ColliderBehavior};
use crate::character::Character;
use crate::collider::{Collider, Collision};
use crate::geometry::Aabb;

verus! {

/// A world object: its entity, its name in the scene data, the scene it
/// belongs to, whether it is shown, its position, its depth for drawing,
/// and its collider.
#[derive(Debug, Clone)]
pub struct Body {
    pub entity: u64,
    pub name: String,
    pub scene: u64,
    pub visible: bool,
    pub x: i64,
    pub y: i64,
    pub z: i64,
    pub collider: Collider,
}

impl Body {
    pub open spec fn wf(&self) -> bool {
        self.collider.wf()
    }
}

/// Every body of the world is well formed.
pub open spec fn all_wf(world: Seq<Body>) -> bool {
    forall|i: int| 0 <= i < world.len() ==> #[trigger] world[i].wf()
}

/// An overlap between an actor's predictive volume and a world object,
/// with the tags of the object's collider.
#[derive(Debug)]
pub struct ItemInteraction {
    pub actor: u64,
    pub object: u64,
    pub behaviors: Vec<ColliderBehavior>,
}

impl ItemInteraction {
    /// An interaction; an entity does not interact with itself.
    pub fn new(actor: u64, object: u64, behaviors: Vec<ColliderBehavior>) -> (r: ItemInteraction)
        requires
            actor != object,
        ensures
            r.actor == actor,
            r.object == object,
            r.behaviors == behaviors,
    {
        ItemInteraction { actor, object, behaviors }
    }

    pub open spec fn tags(&self) -> Set<BehaviorView> {
        tag_set(self.behaviors@)
    }
}

/// How far an actor goes in one frame along one axis.
pub open spec fn movement_delta(velocity: int, dt: int, speed: int) -> int {
    velocity * dt * speed
}

/// The drawing depth of an object at height `y`: lower objects are in front.
pub open spec fn depth_of(y: int) -> int {
    -1 - y
}

/// The drawing depth of an object at height `y`.
pub fn z_from_y(y: i64) -> (z: i64)
    ensures
        z == depth_of(y as int),
{
    -1 - y
}

/// Whether a body answers a query for `actor` in `scene` against `vol`: it
/// is another entity, of that scene, and its collider hits the volume.
pub open spec fn in_query(b: Body, actor: u64, scene: u64, vol: Aabb) -> bool {
    &&& b.entity != actor
    &&& b.scene == scene
    &&& b.collider.hits(b.x as int, b.y as int, &vol)
}

/// The positions, in order, of the first `n` bodies that answer the query.
pub open spec fn hit_indices(world: Seq<Body>, n: int, actor: u64, scene: u64, vol: Aabb) -> Seq<
    int,
>
    decreases n,
{
    if n <= 0 {
        Seq::empty()
    } else {
        let prev = hit_indices(world, n - 1, actor, scene, vol);
        if in_query(world[n - 1], actor, scene, vol) {
            prev.push(n - 1)
        } else {
            prev
        }
    }
}

/// The union of the tags of the bodies at the given positions.
pub open spec fn union_of(world: Seq<Body>, hits: Seq<int>) -> Set<BehaviorView>
    decreases hits.len(),
{
    if hits.len() == 0 {
        Set::empty()
    } else {
        union_of(world, hits.drop_last()).union(world[hits.last()].collider.tags())
    }
}

/// Whether one of the bodies at the given positions carries `Obstruct`.
pub open spec fn obstructed(world: Seq<Body>, hits: Seq<int>) -> bool {
    exists|k: int| 0 <= k < hits.len() && #[trigger] world[hits[k]].collider.tags().contains(BehaviorView::Obstruct)
}

/// The volume that an actor would fill after moving by `(dx, dy)`.
pub open spec fn predictive_volume(actor: Body, dx: int, dy: int) -> Aabb {
    actor.collider.volume_at(actor.x as int, actor.y as int, dx, dy)
}

/// A tag is in the union exactly when one of the bodies carries it.
pub proof fn lemma_union_contains(world: Seq<Body>, hits: Seq<int>, v: BehaviorView)
    ensures
        union_of(world, hits).contains(v) <==> exists|k: int|
            0 <= k < hits.len() && #[trigger] world[hits[k]].collider.tags().contains(v),
    decreases hits.len(),
{
    if hits.len() > 0 {
        let prev = hits.drop_last();
        lemma_union_contains(world, prev, v);
        if union_of(world, hits).contains(v) {
            if !world[hits.last()].collider.tags().contains(v) {
                let k = choose|k: int|
                    0 <= k < prev.len() && #[trigger] world[prev[k]].collider.tags().contains(v);
                assert(hits[k] == prev[k]);
            } else {
                assert(world[hits[hits.len() - 1]].collider.tags().contains(v));
            }
        }
        if exists|k: int| 0 <= k < hits.len() && #[trigger] world[hits[k]].collider.tags().contains(v) {
            let k = choose|k: int|
                0 <= k < hits.len() && #[trigger] world[hits[k]].collider.tags().contains(v);
            if k < hits.len() - 1 {
                assert(prev[k] == hits[k]);
            }
        }
    }
}

/// Queries the bodies of `world` for `actor` in `scene` against `vol`: one
/// interaction per body that answers, in order, and the union of their tags.
pub fn collect_interactions(world: &Vec<Body>, actor: u64, scene: u64, vol: &Aabb) -> (r: (
    Vec<ItemInteraction>,
    Collision,
))
    requires
        all_wf(world@),
    ensures
        ({
            let hits = hit_indices(world@, world@.len() as int, actor, scene, *vol);
            &&& r.0@.len() == hits.len()
            &&& forall|k: int|
                0 <= k < hits.len() ==> {
                    &&& (#[trigger] r.0@[k]).actor == actor
                    &&& r.0@[k].object == world@[hits[k]].entity
                    &&& distinct_tags(r.0@[k].behaviors@)
                    &&& r.0@[k].tags() == world@[hits[k]].collider.tags()
                }
            &&& r.1.wf()
            &&& r.1.tags() == union_of(world@, hits)
        }),
{
    let mut events: Vec<ItemInteraction> = Vec::new();
    let mut union = Collision::empty();
    let mut i: usize = 0;
    while i < world.len()
        invariant
            i <= world@.len(),
            all_wf(world@),
            union.wf(),
            union.tags() == union_of(world@, hit_indices(world@, i as int, actor, scene, *vol)),
            events@.len() == hit_indices(world@, i as int, actor, scene, *vol).len(),
            forall|k: int|
                0 <= k < events@.len() ==> {
                    &&& (#[trigger] events@[k]).actor == actor
                    &&& events@[k].object == world@[hit_indices(
                        world@,
                        i as int,
                        actor,
                        scene,
                        *vol,
                    )[k]].entity
                    &&& distinct_tags(events@[k].behaviors@)
                    &&& events@[k].tags() == world@[hit_indices(
                        world@,
                        i as int,
                        actor,
                        scene,
                        *vol,
                    )[k]].collider.tags()
                },
        decreases world@.len() - i,
    {
        let ghost prev = hit_indices(world@, i as int, actor, scene, *vol);
        let b = &world[i];
        assert(world@[i as int].wf());
        if b.entity != actor && b.scene == scene {
            match b.collider.intersect(b.x, b.y, vol) {
                Some(c) => {
                    union.insert_all(&c.behaviors);
                    events.push(ItemInteraction { actor, object: b.entity, behaviors: c.behaviors });
                    proof {
                        let next = hit_indices(world@, i + 1, actor, scene, *vol);
                        assert(next == prev.push(i as int));
                        assert(next.drop_last() == prev);
                        assert forall|k: int| 0 <= k < events@.len() implies {
                            &&& (#[trigger] events@[k]).actor == actor
                            &&& events@[k].object == world@[next[k]].entity
                            &&& distinct_tags(events@[k].behaviors@)
                            &&& events@[k].tags() == world@[next[k]].collider.tags()
                        } by {
                            if k < prev.len() {
                                assert(next[k] == prev[k]);
                            }
                        }
                    }
                },
                None => {},
            }
        }
        i = i + 1;
    }
    (events, union)
}

/// The registry's query: the union of the tags of every other body of the
/// scene whose collider meets `vol`, or none when that union is empty.
pub fn query(world: &Vec<Body>, actor: u64, scene: u64, vol: &Aabb) -> (r: Option<Collision>)
    requires
        all_wf(world@),
    ensures
        ({
            let u = union_of(world@, hit_indices(world@, world@.len() as int, actor, scene, *vol));
            &&& r is None <==> u == Set::<BehaviorView>::empty()
            &&& r matches Some(c) ==> c.wf() && c.tags() == u
        }),
{
    let (_events, union) = collect_interactions(world, actor, scene, vol);
    if union.behaviors.len() == 0 {
        proof {
            crate::collider::lemma_empty_tags(union.behaviors@);
        }
        None
    } else {
        proof {
            crate::collider::lemma_empty_tags(union.behaviors@);
        }
        Some(union)
    }
}

/// The move along one axis, computed without overflow.
pub fn delta_along(velocity: i32, dt: i32, speed: i32) -> (r: i128)
    ensures
        r == movement_delta(velocity as int, dt as int, speed as int),
{
    let v = velocity as i128;
    let t = dt as i128;
    let s = speed as i128;
    assert(-0x8000_0000 <= v <= 0x7fff_ffff);
    assert(-0x8000_0000 <= t <= 0x7fff_ffff);
    assert(-0x4000_0000_0000_0000 <= v * t <= 0x4000_0000_0000_0000) by (nonlinear_arith)
        requires
            -0x8000_0000 <= v <= 0x7fff_ffff,
            -0x8000_0000 <= t <= 0x7fff_ffff,
    ;
    let vt = v * t;
    assert(-0x2000_0000_0000_0000_0000_0000 <= vt * s <= 0x2000_0000_0000_0000_0000_0000) by (nonlinear_arith)
        requires
            -0x4000_0000_0000_0000 <= vt <= 0x4000_0000_0000_0000,
            -0x8000_0000 <= s <= 0x7fff_ffff,
    ;
    vt * s
}

/// The part of a frame's outcome that concerns the actor's events and its
/// record of overlaps, for a move by `(dx, dy)`.
pub open spec fn frame_events(
    world: Seq<Body>,
    actor: Body,
    scene: u64,
    dx: int,
    dy: int,
    events: Seq<ItemInteraction>,
    collision: Collision,
) -> bool {
    let hits = hit_indices(world, world.len() as int, actor.entity, scene, predictive_volume(actor, dx, dy));
    &&& events.len() == hits.len()
    &&& forall|k: int|
        0 <= k < hits.len() ==> {
            &&& (#[trigger] events[k]).actor == actor.entity
            &&& events[k].object == world[hits[k]].entity
            &&& distinct_tags(events[k].behaviors@)
            &&& events[k].tags() == world[hits[k]].collider.tags()
        }
    &&& collision.wf()
    &&& collision.tags() == union_of(world, hits)
}

/// Advances `actor` by one frame of `dt` time units. The move is
/// `velocity * dt * speed` on each axis. Every other body of `active_scene`
/// whose collider meets the actor's volume at the new place gives one
/// interaction, and the union of their tags becomes the character's record
/// of overlaps. The actor moves, and its depth follows its height, unless
/// one of those bodies carries `Obstruct`; then it stays where it is. A move
/// of length zero queries nothing: no interaction, no overlap.
pub fn move_actor(
    actor: &mut Body,
    character: &mut Character,
    world: &Vec<Body>,
    active_scene: u64,
    dt: i32,
) -> (r: Vec<ItemInteraction>)
    requires
        old(actor).wf(),
        all_wf(world@),
        i64::MIN <= movement_delta(old(character).velocity_x as int, dt as int, old(character).movement_speed as int) <= i64::MAX,
        i64::MIN <= movement_delta(old(character).velocity_y as int, dt as int, old(character).movement_speed as int) <= i64::MAX,
        i64::MIN <= old(actor).x + movement_delta(old(character).velocity_x as int, dt as int, old(character).movement_speed as int) <= i64::MAX,
        i64::MIN <= old(actor).y + movement_delta(old(character).velocity_y as int, dt as int, old(character).movement_speed as int) <= i64::MAX,
    ensures
        ({
            let dx = movement_delta(old(character).velocity_x as int, dt as int, old(character).movement_speed as int);
            let dy = movement_delta(old(character).velocity_y as int, dt as int, old(character).movement_speed as int);
            let hits = hit_indices(world@, world@.len() as int, old(actor).entity, active_scene, predictive_volume(*old(actor), dx, dy));
            &&& final(character).direction == old(character).direction
            &&& final(character).state == old(character).state
            &&& final(character).previous_state == old(character).previous_state
            &&& final(character).velocity_x == old(character).velocity_x
            &&& final(character).velocity_y == old(character).velocity_y
            &&& final(character).movement_speed == old(character).movement_speed
            &&& final(actor).entity == old(actor).entity
            &&& final(actor).scene == old(actor).scene
            &&& final(actor).collider == old(actor).collider
            &&& (dx == 0 && dy == 0) ==> {
                &&& r@.len() == 0
                &&& final(character).collision.wf()
                &&& final(character).collision.tags() == Set::<BehaviorView>::empty()
                &&& *final(actor) == *old(actor)
            }
            &&& (dx != 0 || dy != 0) ==> {
                &&& frame_events(world@, *old(actor), active_scene, dx, dy, r@, final(character).collision)
                &&& obstructed(world@, hits) ==> *final(actor) == *old(actor)
                &&& !obstructed(world@, hits) ==> {
                    &&& final(actor).x == old(actor).x + dx
                    &&& final(actor).y == old(actor).y + dy
                    &&& final(actor).z == depth_of(final(actor).y as int)
                }
            }
        }),
{
    let dx: i64 = delta_along(character.velocity_x, dt, character.movement_speed) as i64;
    let dy: i64 = delta_along(character.velocity_y, dt, character.movement_speed) as i64;
    if dx == 0 && dy == 0 {
        character.collision = Collision::empty();
        return Vec::new();
    }
    let vol = actor.collider.bounding_volume_with_translation(actor.x, actor.y, dx, dy);
    let (events, union) = collect_interactions(world, actor.entity, active_scene, &vol);
    let blocked = union.is_obstruction();
    proof {
        let hits = hit_indices(world@, world@.len() as int, actor.entity, active_scene, vol);
        lemma_union_contains(world@, hits, BehaviorView::Obstruct);
    }
    character.collision = union;
    if !blocked {
        actor.x = actor.x + dx;
        actor.y = actor.y + dy;
        actor.z = z_from_y(actor.y);
    }
    events
}

} // verus!
