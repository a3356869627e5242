use vstd::prelude::*;

use crate::behavior::{
    copy_tags, distinct_tags, find_tag, insert_all_tags, insert_tag, lemma_tag_set_take_next, lemma_same_views_same_tags, remove_tag,
    tag_set, BehaviorView, ColliderBehavior,
};
use crate::geometry::Aabb;

verus! {

/// The overlap shape of a world object: a box with half extents, placed at
/// an offset from the object's position, and the tags it carries.
#[derive(Debug, Clone)]
pub struct Collider {
    pub behaviors: Vec<ColliderBehavior>,
    pub half_width: i64,
    pub half_height: i64,
    pub offset_x: i64,
    pub offset_y: i64,
}

/// The tags met in one overlap, or the union of several.
#[derive(Debug, Clone)]
pub struct Collision {
    pub behaviors: Vec<ColliderBehavior>,
}

impl Collider {
    pub open spec fn wf(&self) -> bool {
        &&& self.half_width >= 0
        &&& self.half_height >= 0
        &&& distinct_tags(self.behaviors@)
    }

    pub open spec fn tags(&self) -> Set<BehaviorView> {
        tag_set(self.behaviors@)
    }

    /// The box of the collider for an object at `(x, y)` moved by `(dx, dy)`.
    pub open spec fn volume_at(&self, x: int, y: int, dx: int, dy: int) -> Aabb {
        Aabb::around(
            x + dx + self.offset_x,
            y + dy + self.offset_y,
            self.half_width as int,
            self.half_height as int,
        )
    }

    /// Whether the collider takes part in a query against `other` for an
    /// object at `(x, y)`: it carries a tag and its box meets `other`.
    pub open spec fn hits(&self, x: int, y: int, other: &Aabb) -> bool {
        &&& self.behaviors@.len() > 0
        &&& self.volume_at(x, y, 0, 0).overlaps(other)
    }

    /// A collider with the given tags, of which repeats are kept once.
    pub fn new(
        behaviors: Vec<ColliderBehavior>,
        half_width: i64,
        half_height: i64,
        offset_x: i64,
        offset_y: i64,
    ) -> (r: Collider)
        requires
            half_width >= 0,
            half_height >= 0,
        ensures
            r.wf(),
            r.tags() == tag_set(behaviors@),
            r.half_width == half_width,
            r.half_height == half_height,
            r.offset_x == offset_x,
            r.offset_y == offset_y,
    {
        let mut tags: Vec<ColliderBehavior> = Vec::new();
        let mut i: usize = 0;
        while i < behaviors.len()
            invariant
                i <= behaviors@.len(),
                distinct_tags(tags@),
                tag_set(tags@) == tag_set(behaviors@.take(i as int)),
            decreases behaviors@.len() - i,
        {
            insert_tag(&mut tags, behaviors[i].copied());
            proof {
                lemma_tag_set_take_next(behaviors@, i as int);
            }
            i = i + 1;
        }
        assert(behaviors@.take(behaviors@.len() as int) == behaviors@);
        Collider { behaviors: tags, half_width, half_height, offset_x, offset_y }
    }

    /// A collider with one tag.
    pub fn single(
        behavior: ColliderBehavior,
        half_width: i64,
        half_height: i64,
        offset_x: i64,
        offset_y: i64,
    ) -> (r: Collider)
        requires
            half_width >= 0,
            half_height >= 0,
        ensures
            r.wf(),
            r.tags() == Set::<BehaviorView>::empty().insert(behavior@),
            r.half_width == half_width,
            r.half_height == half_height,
            r.offset_x == offset_x,
            r.offset_y == offset_y,
    {
        let mut behaviors: Vec<ColliderBehavior> = Vec::new();
        insert_tag(&mut behaviors, behavior);
        assert(tag_set(Seq::<ColliderBehavior>::empty()) =~= Set::<BehaviorView>::empty());
        Collider { behaviors, half_width, half_height, offset_x, offset_y }
    }

    /// Adds a tag to the live collider; its shape stays.
    pub fn insert_behavior(&mut self, behavior: ColliderBehavior)
        requires
            old(self).wf(),
        ensures
            final(self).wf(),
            final(self).tags() == old(self).tags().insert(behavior@),
            final(self).half_width == old(self).half_width,
            final(self).half_height == old(self).half_height,
            final(self).offset_x == old(self).offset_x,
            final(self).offset_y == old(self).offset_y,
    {
        insert_tag(&mut self.behaviors, behavior);
    }

    /// Takes a tag off the live collider; its shape stays.
    pub fn remove_behavior(&mut self, behavior: &ColliderBehavior)
        requires
            old(self).wf(),
        ensures
            final(self).wf(),
            final(self).tags() == old(self).tags().remove(behavior@),
            final(self).half_width == old(self).half_width,
            final(self).half_height == old(self).half_height,
            final(self).offset_x == old(self).offset_x,
            final(self).offset_y == old(self).offset_y,
    {
        remove_tag(&mut self.behaviors, behavior);
    }

    /// Whether the collider is well formed: no negative extent, no tag twice.
    pub fn is_well_formed(&self) -> (r: bool)
        ensures
            r == self.wf(),
    {
        if self.half_width < 0 || self.half_height < 0 {
            return false;
        }
        let n = self.behaviors.len();
        let mut i: usize = 0;
        while i < n
            invariant
                n == self.behaviors@.len(),
                i <= n,
                forall|a: int, b: int| 0 <= a < i && 0 <= b < n && a != b ==> self.behaviors@[a]@ != self.behaviors@[b]@,
            decreases n - i,
        {
            let mut j: usize = 0;
            while j < n
                invariant
                    n == self.behaviors@.len(),
                    i < n,
                    j <= n,
                    forall|b: int| 0 <= b < j && b != i ==> self.behaviors@[i as int]@ != self.behaviors@[b]@,
                decreases n - j,
            {
                if j != i && self.behaviors[i] == self.behaviors[j] {
                    return false;
                }
                j = j + 1;
            }
            i = i + 1;
        }
        true
    }

    /// Whether the collider carries the tag.
    pub fn has_behavior(&self, behavior: &ColliderBehavior) -> (r: bool)
        ensures
            r == self.tags().contains(behavior@),
    {
        find_tag(&self.behaviors, behavior).is_some()
    }

    /// The box of the collider for an object at `(x, y)`.
    pub fn bounding_volume(&self, x: i64, y: i64) -> (r: Aabb)
        requires
            self.wf(),
        ensures
            r == self.volume_at(x as int, y as int, 0, 0),
    {
        self.bounding_volume_with_translation(x, y, 0, 0)
    }

    /// The box of the collider for an object at `(x, y)` that would move by
    /// `(dx, dy)`.
    pub fn bounding_volume_with_translation(&self, x: i64, y: i64, dx: i64, dy: i64) -> (r: Aabb)
        requires
            self.wf(),
        ensures
            r == self.volume_at(x as int, y as int, dx as int, dy as int),
    {
        let cx: i128 = x as i128 + dx as i128 + self.offset_x as i128;
        let cy: i128 = y as i128 + dy as i128 + self.offset_y as i128;
        let hw: i128 = self.half_width as i128;
        let hh: i128 = self.half_height as i128;
        Aabb { min_x: cx - hw, min_y: cy - hh, max_x: cx + hw, max_y: cy + hh }
    }

    /// The tags of the collider for an object at `(x, y)` when its box meets
    /// `other`; none when it carries no tag, whatever the boxes do.
    pub fn intersect(&self, x: i64, y: i64, other: &Aabb) -> (r: Option<Collision>)
        requires
            self.wf(),
        ensures
            r.is_some() == self.hits(x as int, y as int, other),
            self.tags() == Set::<BehaviorView>::empty() ==> r is None,
            r matches Some(c) ==> c.wf() && c.tags() == self.tags(),
    {
        proof {
            lemma_empty_tags(self.behaviors@);
        }
        if self.behaviors.len() == 0 {
            return None;
        }
        let aabb = self.bounding_volume(x, y);
        if !aabb.intersects(other) {
            return None;
        }
        let behaviors = copy_tags(&self.behaviors);
        proof {
            lemma_same_views_same_tags(self.behaviors@, behaviors@);
        }
        Some(Collision { behaviors })
    }
}

/// A list stands for no tag exactly when it is empty.
pub proof fn lemma_empty_tags(s: Seq<ColliderBehavior>)
    ensures
        (tag_set(s) == Set::<BehaviorView>::empty()) <==> s.len() == 0,
{
    if s.len() > 0 {
        assert(tag_set(s).contains(s[0]@));
    } else {
        assert(tag_set(s) =~= Set::<BehaviorView>::empty());
    }
}

impl Collision {
    pub open spec fn wf(&self) -> bool {
        distinct_tags(self.behaviors@)
    }

    pub open spec fn tags(&self) -> Set<BehaviorView> {
        tag_set(self.behaviors@)
    }

    /// A collision with no tag.
    pub fn empty() -> (r: Collision)
        ensures
            r.wf(),
            r.tags() == Set::<BehaviorView>::empty(),
    {
        let r = Collision { behaviors: Vec::new() };
        assert(r.tags() =~= Set::<BehaviorView>::empty());
        r
    }

    /// Adds a tag to the union.
    pub fn insert_behavior(&mut self, behavior: ColliderBehavior)
        requires
            old(self).wf(),
        ensures
            final(self).wf(),
            final(self).tags() == old(self).tags().insert(behavior@),
    {
        insert_tag(&mut self.behaviors, behavior);
    }

    /// Adds every tag of `behaviors` to the union.
    pub fn insert_all(&mut self, behaviors: &Vec<ColliderBehavior>)
        requires
            old(self).wf(),
        ensures
            final(self).wf(),
            final(self).tags() == old(self).tags().union(tag_set(behaviors@)),
    {
        insert_all_tags(&mut self.behaviors, behaviors);
    }

    /// Whether the union holds `Obstruct`.
    pub fn is_obstruction(&self) -> (r: bool)
        ensures
            r == self.tags().contains(BehaviorView::Obstruct),
    {
        let mut i: usize = 0;
        while i < self.behaviors.len()
            invariant
                i <= self.behaviors@.len(),
                forall|k: int| 0 <= k < i ==> self.behaviors@[k]@ != BehaviorView::Obstruct,
            decreases self.behaviors@.len() - i,
        {
            if self.behaviors[i].is_obstruct() {
                return true;
            }
            i = i + 1;
        }
        false
    }
}

impl Default for Collision {
    fn default() -> (r: Collision)
        ensures
            r.wf(),
            r.tags() == Set::<BehaviorView>::empty(),
    {
        Collision::empty()
    }
}

} // verus!
