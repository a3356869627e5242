use vstd::prelude::*;
use vstd::string::StrSliceExecFns;

use crate::behavior::{distinct_tags, insert_tag, tag_set, BehaviorView, ColliderBehavior};
use crate::game::{DialogueSpec, DialogueSpecView, DialogueUiType};

verus! {

/// The value of a property of a scene object, as far as behaviors read it.
#[derive(Debug, Clone)]
pub enum PropertyValue {
    BoolValue(bool),
    StringValue(String),
    /// Any other kind of value, which no behavior reads.
    Other,
}

/// The dialogue that the properties ask for so far, and the auto-display
/// override so far, after reading the properties in order.
pub open spec fn read_dialogue_props(props: Seq<(String, PropertyValue)>) -> (Option<DialogueSpecView>, Option<bool>)
    decreases props.len(),
{
    if props.len() == 0 {
        (None, None)
    } else {
        let (d, o) = read_dialogue_props(props.drop_last());
        let (k, v) = props.last();
        if k@ == "dialogue"@ {
            match v {
                PropertyValue::StringValue(s) => (
                    Some(
                        DialogueSpecView {
                            node_name: s@,
                            ui_type: DialogueUiType::MovementDisabled,
                            auto_display: false,
                        },
                    ),
                    o,
                ),
                _ => (d, o),
            }
        } else if k@ == "notice"@ {
            match v {
                PropertyValue::StringValue(s) => (
                    Some(
                        DialogueSpecView {
                            node_name: s@,
                            ui_type: DialogueUiType::Notice,
                            auto_display: true,
                        },
                    ),
                    o,
                ),
                _ => (d, o),
            }
        } else if k@ == "autodisplay"@ {
            match v {
                PropertyValue::BoolValue(b) => (d, Some(b)),
                _ => (d, o),
            }
        } else {
            (d, o)
        }
    }
}

/// The dialogue that an object offers: the last `dialogue` (a window that
/// stops the player, not shown by itself) or `notice` (a notice, shown by
/// itself) property, with its auto-display flag replaced by the last
/// boolean `autodisplay` property if there is one.
pub open spec fn offered_dialogue(props: Seq<(String, PropertyValue)>) -> Option<DialogueSpecView> {
    let (d, o) = read_dialogue_props(props);
    match d {
        None => None,
        Some(spec) => match o {
            Some(b) => Some(DialogueSpecView { auto_display: b, ..spec }),
            None => Some(spec),
        },
    }
}

/// Whether an object name asks for a scene load: it starts with `load:`.
pub open spec fn is_load_name(name: Seq<char>) -> bool {
    name.len() >= 5 && name.subrange(0, 5) == "load:"@
}

/// The tags of a scene object's collider. Spawn points and triggers get
/// only their dialogue; gems are collected while shown; a shown `load:`
/// object loads the scene named by the rest of its name; any other shape,
/// or a sprite without inner objects, obstructs.
pub open spec fn object_tags(
    name: Seq<char>,
    visible: bool,
    is_shape: bool,
    has_kids: bool,
    props: Seq<(String, PropertyValue)>,
) -> Set<BehaviorView> {
    let base = match offered_dialogue(props) {
        Some(d) => Set::empty().insert(BehaviorView::Dialogue(d)),
        None => Set::empty(),
    };
    if name == "spawn"@ || name == "trigger"@ {
        base
    } else if name == "biggem"@ || name == "gem"@ {
        if visible {
            base.insert(BehaviorView::Collect)
        } else {
            base
        }
    } else if is_load_name(name) {
        if visible {
            base.insert(BehaviorView::Load(name.subrange(5, name.len() as int)))
        } else {
            base
        }
    } else if is_shape || !has_kids {
        base.insert(BehaviorView::Obstruct)
    } else {
        base
    }
}

/// Reads the dialogue properties of an object.
fn read_dialogue(props: &Vec<(String, PropertyValue)>) -> (r: Option<DialogueSpec>)
    ensures
        match r {
            Some(spec) => offered_dialogue(props@) == Some(spec@),
            None => offered_dialogue(props@) is None,
        },
{
    let dialogue_key: String = "dialogue".to_owned();
    let notice_key: String = "notice".to_owned();
    let auto_key: String = "autodisplay".to_owned();
    let mut spec: Option<DialogueSpec> = None;
    let mut auto_override: Option<bool> = None;
    let mut i: usize = 0;
    while i < props.len()
        invariant
            i <= props@.len(),
            dialogue_key@ == "dialogue"@,
            notice_key@ == "notice"@,
            auto_key@ == "autodisplay"@,
            read_dialogue_props(props@.take(i as int)).1 == auto_override,
            match spec {
                Some(s) => read_dialogue_props(props@.take(i as int)).0 == Some(s@),
                None => read_dialogue_props(props@.take(i as int)).0 is None,
            },
        decreases props@.len() - i,
    {
        assert(props@.take(i + 1).drop_last() =~= props@.take(i as int));
        assert(props@.take(i + 1).last() == props@[i as int]);
        let (key, value) = &props[i];
        if *key == dialogue_key {
            if let PropertyValue::StringValue(s) = value {
                spec = Some(
                    DialogueSpec {
                        node_name: s.clone(),
                        ui_type: DialogueUiType::MovementDisabled,
                        auto_display: false,
                    },
                );
            }
        } else if *key == notice_key {
            if let PropertyValue::StringValue(s) = value {
                spec = Some(
                    DialogueSpec { node_name: s.clone(), ui_type: DialogueUiType::Notice, auto_display: true },
                );
            }
        } else if *key == auto_key {
            if let PropertyValue::BoolValue(b) = value {
                auto_override = Some(*b);
            }
        }
        i = i + 1;
    }
    assert(props@.take(props@.len() as int) =~= props@);
    match spec {
        Some(mut s) => {
            if let Some(b) = auto_override {
                s.auto_display = b;
            }
            Some(s)
        },
        None => None,
    }
}

/// Whether two strings are equal.
fn same_text(a: &str, b: &str) -> (r: bool)
    ensures
        r == (a@ == b@),
{
    a.to_owned() == b.to_owned()
}

/// The behaviors of a scene object's collider, from its name, whether it
/// is shown, whether it is a bare shape, whether it has inner objects, and
/// its properties, as `object_tags` says.
pub fn object_behaviors(
    name: &str,
    visible: bool,
    is_shape: bool,
    has_kids: bool,
    props: &Vec<(String, PropertyValue)>,
) -> (r: Vec<ColliderBehavior>)
    ensures
        distinct_tags(r@),
        tag_set(r@) == object_tags(name@, visible, is_shape, has_kids, props@),
{
    let mut behaviors: Vec<ColliderBehavior> = Vec::new();
    assert(tag_set(behaviors@) =~= Set::<BehaviorView>::empty());
    match read_dialogue(props) {
        Some(spec) => {
            insert_tag(&mut behaviors, ColliderBehavior::Dialogue(spec));
        },
        None => {},
    }
    if same_text(name, "spawn") || same_text(name, "trigger") {
    } else if same_text(name, "biggem") || same_text(name, "gem") {
        if visible {
            insert_tag(&mut behaviors, ColliderBehavior::Collect);
        }
    } else {
        let len = name.unicode_len();
        if len >= 5 && same_text(name.substring_char(0, 5), "load:") {
            if visible {
                let path = name.substring_char(5, len).to_owned();
                insert_tag(&mut behaviors, ColliderBehavior::Load { path });
            }
        } else if is_shape || !has_kids {
            insert_tag(&mut behaviors, ColliderBehavior::Obstruct);
        }
    }
    behaviors
}

} // verus!
