use vstd::prelude::*;

use crate::game::{DialogueSpec, DialogueSpecView};

verus! {

/// What a behavior tag means, with its strings as character sequences.
pub enum BehaviorView {
    Obstruct,
    Collect,
    Load(Seq<char>),
    Dialogue(DialogueSpecView),
    Script(Seq<char>),
}

/// The effect of overlapping a collider.
#[derive(Debug, Clone, Hash)]
pub enum ColliderBehavior {
    /// Blocks movement.
    Obstruct,
    /// Is picked up by the actor.
    Collect,
    /// Opens another scene.
    Load { path: String },
    /// Offers a dialogue.
    Dialogue(DialogueSpec),
    /// Runs script code.
    Script(String),
}

impl View for ColliderBehavior {
    type V = BehaviorView;

    open spec fn view(&self) -> BehaviorView {
        match self {
            ColliderBehavior::Obstruct => BehaviorView::Obstruct,
            ColliderBehavior::Collect => BehaviorView::Collect,
            ColliderBehavior::Load { path } => BehaviorView::Load(path@),
            ColliderBehavior::Dialogue(spec) => BehaviorView::Dialogue(spec@),
            ColliderBehavior::Script(code) => BehaviorView::Script(code@),
        }
    }
}

impl ColliderBehavior {
    /// A copy whose view is the same.
    pub fn copied(&self) -> (r: ColliderBehavior)
        ensures
            r@ == self@,
    {
        match self {
            ColliderBehavior::Obstruct => ColliderBehavior::Obstruct,
            ColliderBehavior::Collect => ColliderBehavior::Collect,
            ColliderBehavior::Load { path } => ColliderBehavior::Load { path: path.clone() },
            ColliderBehavior::Dialogue(spec) => ColliderBehavior::Dialogue(spec.copied()),
            ColliderBehavior::Script(code) => ColliderBehavior::Script(code.clone()),
        }
    }

    /// Whether the tag is `Obstruct`.
    pub fn is_obstruct(&self) -> (r: bool)
        ensures
            r == (self@ == BehaviorView::Obstruct),
    {
        match self {
            ColliderBehavior::Obstruct => true,
            ColliderBehavior::Collect
            | ColliderBehavior::Load { .. }
            | ColliderBehavior::Dialogue(_)
            | ColliderBehavior::Script(_) => false,
        }
    }
}

impl PartialEq for ColliderBehavior {
    fn eq(&self, other: &ColliderBehavior) -> (r: bool) {
        match (self, other) {
            (ColliderBehavior::Obstruct, ColliderBehavior::Obstruct) => true,
            (ColliderBehavior::Collect, ColliderBehavior::Collect) => true,
            (ColliderBehavior::Load { path: a }, ColliderBehavior::Load { path: b }) => *a == *b,
            (ColliderBehavior::Dialogue(a), ColliderBehavior::Dialogue(b)) => *a == *b,
            (ColliderBehavior::Script(a), ColliderBehavior::Script(b)) => *a == *b,
            _ => false,
        }
    }
}

impl vstd::std_specs::cmp::PartialEqSpecImpl for ColliderBehavior {
    open spec fn obeys_eq_spec() -> bool {
        true
    }

    open spec fn eq_spec(&self, other: &ColliderBehavior) -> bool {
        self@ == other@
    }
}

impl Eq for ColliderBehavior {

}

/// The set of tags that a list of behaviors stands for.
pub open spec fn tag_set(s: Seq<ColliderBehavior>) -> Set<BehaviorView> {
    Set::new(|v: BehaviorView| exists|i: int| 0 <= i < s.len() && s[i]@ == v)
}

/// No tag occurs twice in the list.
pub open spec fn distinct_tags(s: Seq<ColliderBehavior>) -> bool {
    forall|i: int, j: int| 0 <= i < s.len() && 0 <= j < s.len() && i != j ==> s[i]@ != s[j]@
}

/// The position of a tag in a list, if it is there.
pub fn find_tag(v: &Vec<ColliderBehavior>, b: &ColliderBehavior) -> (r: Option<usize>)
    ensures
        match r {
            Some(i) => i < v@.len() && v@[i as int]@ == b@,
            None => !tag_set(v@).contains(b@),
        },
{
    let mut i: usize = 0;
    while i < v.len()
        invariant
            i <= v@.len(),
            forall|k: int| 0 <= k < i ==> v@[k]@ != b@,
        decreases v@.len() - i,
    {
        if v[i] == *b {
            return Some(i);
        }
        i = i + 1;
    }
    None
}

/// Adds a tag to a list of distinct tags, unless it is there already.
pub fn insert_tag(v: &mut Vec<ColliderBehavior>, b: ColliderBehavior)
    requires
        distinct_tags(old(v)@),
    ensures
        distinct_tags(final(v)@),
        tag_set(final(v)@) == tag_set(old(v)@).insert(b@),
{
    match find_tag(v, &b) {
        Some(i) => {
            assert(tag_set(v@) =~= tag_set(v@).insert(b@));
        },
        None => {
            let ghost before = v@;
            v.push(b);
            assert(v@ == before.push(b));
            assert forall|x: BehaviorView| tag_set(v@).contains(x) <==> tag_set(before).insert(
                b@,
            ).contains(x) by {
                if tag_set(v@).contains(x) {
                    let k = choose|k: int| 0 <= k < v@.len() && v@[k]@ == x;
                    if k < before.len() {
                        assert(before[k]@ == x);
                    }
                }
                if tag_set(before).contains(x) {
                    let k = choose|k: int| 0 <= k < before.len() && before[k]@ == x;
                    assert(v@[k]@ == x);
                }
                if x == b@ {
                    assert(v@[before.len() as int]@ == x);
                }
            }
            assert(tag_set(v@) =~= tag_set(before).insert(b@));
        },
    }
}

/// Removes a tag from a list of distinct tags, if it is there.
pub fn remove_tag(v: &mut Vec<ColliderBehavior>, b: &ColliderBehavior)
    requires
        distinct_tags(old(v)@),
    ensures
        distinct_tags(final(v)@),
        tag_set(final(v)@) == tag_set(old(v)@).remove(b@),
{
    match find_tag(v, b) {
        Some(i) => {
            let ghost before = v@;
            v.remove(i);
            assert(v@ == before.remove(i as int));
            assert forall|x: BehaviorView| tag_set(v@).contains(x) <==> tag_set(before).remove(
                b@,
            ).contains(x) by {
                if tag_set(v@).contains(x) {
                    let k = choose|k: int| 0 <= k < v@.len() && v@[k]@ == x;
                    if k < i {
                        assert(before[k]@ == x);
                    } else {
                        assert(before[k + 1]@ == x);
                    }
                }
                if tag_set(before).remove(b@).contains(x) {
                    let k = choose|k: int| 0 <= k < before.len() && before[k]@ == x;
                    if k < i {
                        assert(v@[k]@ == x);
                    } else {
                        assert(k != i);
                        assert(v@[k - 1]@ == x);
                    }
                }
            }
            assert(tag_set(v@) =~= tag_set(before).remove(b@));
        },
        None => {
            assert(tag_set(v@) =~= tag_set(v@).remove(b@));
        },
    }
}

/// A copy of a list of tags, element by element.
pub fn copy_tags(v: &Vec<ColliderBehavior>) -> (r: Vec<ColliderBehavior>)
    ensures
        r@.len() == v@.len(),
        forall|i: int| 0 <= i < v@.len() ==> r@[i]@ == v@[i]@,
{
    let mut r: Vec<ColliderBehavior> = Vec::new();
    let mut i: usize = 0;
    while i < v.len()
        invariant
            i <= v@.len(),
            r@.len() == i,
            forall|k: int| 0 <= k < i ==> r@[k]@ == v@[k]@,
        decreases v@.len() - i,
    {
        r.push(v[i].copied());
        i = i + 1;
    }
    r
}

/// Lists whose elements have equal views stand for the same tags.
pub proof fn lemma_same_views_same_tags(a: Seq<ColliderBehavior>, b: Seq<ColliderBehavior>)
    requires
        a.len() == b.len(),
        forall|i: int| 0 <= i < a.len() ==> a[i]@ == b[i]@,
    ensures
        tag_set(a) == tag_set(b),
        distinct_tags(a) ==> distinct_tags(b),
{
    assert forall|x: BehaviorView| tag_set(a).contains(x) <==> tag_set(b).contains(x) by {
        if tag_set(a).contains(x) {
            let k = choose|k: int| 0 <= k < a.len() && a[k]@ == x;
            assert(b[k]@ == x);
        }
        if tag_set(b).contains(x) {
            let k = choose|k: int| 0 <= k < b.len() && b[k]@ == x;
            assert(a[k]@ == x);
        }
    }
    assert(tag_set(a) =~= tag_set(b));
}

/// Taking one more element of a list adds its tag.
pub proof fn lemma_tag_set_take_next(s: Seq<ColliderBehavior>, i: int)
    requires
        0 <= i < s.len(),
    ensures
        tag_set(s.take(i + 1)) == tag_set(s.take(i)).insert(s[i]@),
{
    let next = s.take(i + 1);
    let prev = s.take(i);
    assert forall|x: BehaviorView| tag_set(next).contains(x) <==> tag_set(prev).insert(
        s[i]@,
    ).contains(x) by {
        if tag_set(next).contains(x) {
            let k = choose|k: int| 0 <= k < next.len() && next[k]@ == x;
            if k < i {
                assert(prev[k]@ == x);
            }
        }
        if tag_set(prev).contains(x) {
            let k = choose|k: int| 0 <= k < prev.len() && prev[k]@ == x;
            assert(next[k]@ == x);
        }
        if x == s[i]@ {
            assert(next[i]@ == x);
        }
    }
    assert(tag_set(next) =~= tag_set(prev).insert(s[i]@));
}

/// Adds every tag of `src` to a list of distinct tags.
pub fn insert_all_tags(v: &mut Vec<ColliderBehavior>, src: &Vec<ColliderBehavior>)
    requires
        distinct_tags(old(v)@),
    ensures
        distinct_tags(final(v)@),
        tag_set(final(v)@) == tag_set(old(v)@).union(tag_set(src@)),
{
    let ghost start = tag_set(v@);
    let mut i: usize = 0;
    assert(tag_set(src@.take(0)) =~= Set::<BehaviorView>::empty());
    assert(start.union(Set::<BehaviorView>::empty()) =~= start);
    while i < src.len()
        invariant
            i <= src@.len(),
            distinct_tags(v@),
            tag_set(v@) == start.union(tag_set(src@.take(i as int))),
        decreases src@.len() - i,
    {
        insert_tag(v, src[i].copied());
        proof {
            lemma_tag_set_take_next(src@, i as int);
            assert(start.union(tag_set(src@.take(i as int))).insert(src@[i as int]@) =~= start.union(
                tag_set(src@.take(i as int)).insert(src@[i as int]@),
            ));
        }
        i = i + 1;
    }
    assert(src@.take(src@.len() as int) == src@);
}

} // verus!
