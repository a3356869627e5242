use vstd::prelude::*;

use crate::behavior::{BehaviorView, ColliderBehavior};
use crate::dialogue::{
    all_dialogues_wf, assets_of, begin_all, begin_everywhere, event_views, states_of, Dialogue,
    DialogueEvent, DialogueEventView, DialogueNode, DialogueState,
};
use crate::items::tags_of;
use crate::motion::{all_wf, Body};
use crate::script::{command_views, CommandQueue, ScriptCommand, ScriptCommandView};

verus! {

/// How a dialogue is shown: as a window that stops the player, or as a
/// notice that lets the player keep moving.
#[derive(Debug, Copy, Clone, PartialEq, Eq, Hash, Structural)]
pub enum DialogueUiType {
    MovementDisabled,
    Notice,
}

impl Default for DialogueUiType {
    fn default() -> (r: DialogueUiType)
        ensures
            r == DialogueUiType::MovementDisabled,
    {
        DialogueUiType::MovementDisabled
    }
}

/// What a `DialogueSpec` means: the node to start and how to show it.
pub struct DialogueSpecView {
    pub node_name: Seq<char>,
    pub ui_type: DialogueUiType,
    pub auto_display: bool,
}

/// A dialogue that a world object offers.
#[derive(Debug, Clone, Hash)]
pub struct DialogueSpec {
    pub node_name: String,
    pub ui_type: DialogueUiType,
    pub auto_display: bool,
}

impl View for DialogueSpec {
    type V = DialogueSpecView;

    open spec fn view(&self) -> DialogueSpecView {
        DialogueSpecView {
            node_name: self.node_name@,
            ui_type: self.ui_type,
            auto_display: self.auto_display,
        }
    }
}

impl DialogueSpec {
    /// A copy whose view is the same.
    pub fn copied(&self) -> (r: DialogueSpec)
        ensures
            r@ == self@,
    {
        DialogueSpec {
            node_name: self.node_name.clone(),
            ui_type: self.ui_type,
            auto_display: self.auto_display,
        }
    }
}

impl Default for DialogueSpec {
    fn default() -> (r: DialogueSpec)
        ensures
            r@.node_name.len() == 0,
            r.ui_type == DialogueUiType::MovementDisabled,
            !r.auto_display,
    {
        DialogueSpec {
            node_name: String::new(),
            ui_type: DialogueUiType::MovementDisabled,
            auto_display: false,
        }
    }
}

impl PartialEq for DialogueSpec {
    fn eq(&self, other: &DialogueSpec) -> (r: bool) {
        self.node_name == other.node_name && self.ui_type == other.ui_type && self.auto_display
            == other.auto_display
    }
}

impl vstd::std_specs::cmp::PartialEqSpecImpl for DialogueSpec {
    open spec fn obeys_eq_spec() -> bool {
        true
    }

    open spec fn eq_spec(&self, other: &DialogueSpec) -> bool {
        self@ == other@
    }
}

impl Eq for DialogueSpec {

}

/// Game state that is not saved: which dialogue window, if any, is up.
#[derive(Debug, Clone)]
pub struct Game {
    pub start_dialogue_shown: bool,
    pub dialogue_ui: Option<DialogueUiType>,
    /// The entity whose dialogue the player advances, if any.
    pub current_dialogue: Option<u64>,
    /// The scene that is simulated now.
    pub current_map: u64,
}

impl Game {
    pub open spec fn in_dialogue(&self) -> bool {
        self.dialogue_ui == Some(DialogueUiType::MovementDisabled)
    }

    /// Whether a dialogue window that stops movement is up.
    pub fn is_in_dialogue(&self) -> (r: bool)
        ensures
            r == self.in_dialogue(),
    {
        match self.dialogue_ui {
            Some(DialogueUiType::MovementDisabled) => true,
            Some(DialogueUiType::Notice) => false,
            None => false,
        }
    }
}

/// What applying script commands reads and changes: whether each body is
/// shown, the tags of each body, the state of each dialogue, and the sounds
/// and dialogue events handed out so far.
pub struct HostView {
    pub visible: Seq<bool>,
    pub tags: Seq<Set<BehaviorView>>,
    pub dialogues: Seq<DialogueState>,
    pub sounds: Seq<Seq<char>>,
    pub events: Seq<DialogueEventView>,
}

pub open spec fn names_of(world: Seq<Body>) -> Seq<Seq<char>> {
    world.map_values(|b: Body| b.name@)
}

pub open spec fn visibility_of(world: Seq<Body>) -> Seq<bool> {
    world.map_values(|b: Body| b.visible)
}

pub open spec fn sound_views(s: Seq<String>) -> Seq<Seq<char>> {
    s.map_values(|p: String| p@)
}

pub open spec fn host_view(world: Seq<Body>, dialogues: Seq<Dialogue>, sounds: Seq<String>, events: Seq<DialogueEvent>) -> HostView {
    HostView {
        visible: visibility_of(world),
        tags: tags_of(world),
        dialogues: states_of(dialogues),
        sounds: sound_views(sounds),
        events: event_views(events),
    }
}

/// A body keeps everything but whether it is shown and its tags.
pub open spec fn same_place(a: Body, b: Body) -> bool {
    &&& a.entity == b.entity
    &&& a.name == b.name
    &&& a.scene == b.scene
    &&& a.x == b.x
    &&& a.y == b.y
    &&& a.z == b.z
    &&& a.collider.half_width == b.collider.half_width
    &&& a.collider.half_height == b.collider.half_height
    &&& a.collider.offset_x == b.collider.offset_x
    &&& a.collider.offset_y == b.collider.offset_y
}

/// Applies one command: `SetVisible` shows or hides every body of that
/// name, `SetCollectable` gives every body of that name the `Collect` tag,
/// `StartDialogueIfExists` starts the node on every dialogue that has it,
/// and `PlaySound` hands the path to the host.
pub open spec fn command_step(
    names: Seq<Seq<char>>,
    assets: Seq<Seq<DialogueNode>>,
    s: HostView,
    c: ScriptCommandView,
) -> HostView {
    match c {
        ScriptCommandView::SetVisible(n, v) => HostView {
            visible: Seq::new(s.visible.len(), |i: int| if names[i] == n {
                v
            } else {
                s.visible[i]
            }),
            ..s
        },
        ScriptCommandView::SetCollectable(n, _) => HostView {
            tags: Seq::new(s.tags.len(), |i: int| if names[i] == n {
                s.tags[i].insert(BehaviorView::Collect)
            } else {
                s.tags[i]
            }),
            ..s
        },
        ScriptCommandView::StartDialogueIfExists(n) => {
            let r = begin_all(assets, s.dialogues, n);
            HostView { dialogues: r.0, events: s.events + r.1, ..s }
        },
        ScriptCommandView::PlaySound(p) => HostView { sounds: s.sounds.push(p), ..s },
    }
}

/// Applies the commands in order.
pub open spec fn apply_commands(
    names: Seq<Seq<char>>,
    assets: Seq<Seq<DialogueNode>>,
    s: HostView,
    cs: Seq<ScriptCommandView>,
) -> HostView
    decreases cs.len(),
{
    if cs.len() == 0 {
        s
    } else {
        command_step(names, assets, apply_commands(names, assets, s, cs.drop_last()), cs.last())
    }
}

/// Shows or hides every body called `name`.
fn set_visible_by_name(world: &mut Vec<Body>, name: &String, visible: bool)
    requires
        all_wf(old(world)@),
    ensures
        all_wf(final(world)@),
        final(world)@.len() == old(world)@.len(),
        forall|k: int| 0 <= k < old(world)@.len() ==> same_place(old(world)@[k], #[trigger] final(world)@[k]),
        tags_of(final(world)@) == tags_of(old(world)@),
        visibility_of(final(world)@) == Seq::new(old(world)@.len() as nat, |i: int| if names_of(old(world)@)[i] == name@ {
            visible
        } else {
            visibility_of(old(world)@)[i]
        }),
{
    let ghost start = world@;
    let mut i: usize = 0;
    while i < world.len()
        invariant
            i <= world@.len(),
            world@.len() == start.len(),
            forall|k: int| 0 <= k < start.len() ==> same_place(start[k], #[trigger] world@[k]),
            forall|k: int| 0 <= k < start.len() ==> (#[trigger] world@[k]).collider == start[k].collider,
            forall|k: int| i <= k < start.len() ==> #[trigger] world@[k] == start[k],
            forall|k: int| 0 <= k < i ==> (#[trigger] world@[k]).visible == (if start[k].name@ == name@ {
                visible
            } else {
                start[k].visible
            }),
            all_wf(start),
        decreases start.len() - i,
    {
        if world[i].name == *name {
            world[i].visible = visible;
        }
        i = i + 1;
    }
    assert(tags_of(world@) =~= tags_of(start));
    assert(all_wf(world@)) by {
        assert forall|k: int| 0 <= k < world@.len() implies #[trigger] world@[k].wf() by {
            assert(start[k].wf());
        }
    }
    assert(visibility_of(world@) =~= Seq::new(start.len() as nat, |i: int| if names_of(start)[i] == name@ {
        visible
    } else {
        visibility_of(start)[i]
    }));
}

/// Gives every body called `name` the `Collect` tag.
fn make_collectable_by_name(world: &mut Vec<Body>, name: &String)
    requires
        all_wf(old(world)@),
    ensures
        all_wf(final(world)@),
        final(world)@.len() == old(world)@.len(),
        forall|k: int| 0 <= k < old(world)@.len() ==> same_place(old(world)@[k], #[trigger] final(world)@[k]),
        forall|k: int| 0 <= k < old(world)@.len() ==> (#[trigger] final(world)@[k]).visible == old(world)@[k].visible,
        tags_of(final(world)@) == Seq::new(old(world)@.len() as nat, |i: int| if names_of(old(world)@)[i] == name@ {
            tags_of(old(world)@)[i].insert(BehaviorView::Collect)
        } else {
            tags_of(old(world)@)[i]
        }),
{
    let ghost start = world@;
    let mut i: usize = 0;
    while i < world.len()
        invariant
            i <= world@.len(),
            world@.len() == start.len(),
            all_wf(world@),
            forall|k: int| 0 <= k < start.len() ==> same_place(start[k], #[trigger] world@[k]),
            forall|k: int| 0 <= k < start.len() ==> (#[trigger] world@[k]).visible == start[k].visible,
            forall|k: int| i <= k < start.len() ==> #[trigger] world@[k] == start[k],
            forall|k: int| 0 <= k < i ==> (#[trigger] world@[k]).collider.tags() == (if start[k].name@ == name@ {
                start[k].collider.tags().insert(BehaviorView::Collect)
            } else {
                start[k].collider.tags()
            }),
        decreases start.len() - i,
    {
        let ghost before = world@;
        if world[i].name == *name {
            assert(world@[i as int].wf());
            world[i].collider.insert_behavior(ColliderBehavior::Collect);
        }
        proof {
            assert(forall|k: int| 0 <= k < start.len() && k != i ==> #[trigger] world@[k] == before[k]);
            assert(all_wf(world@)) by {
                assert forall|k: int| 0 <= k < world@.len() implies #[trigger] world@[k].wf() by {
                    if k != i {
                        assert(world@[k] == before[k]);
                    }
                }
            }
        }
        i = i + 1;
    }
    assert(tags_of(world@) =~= Seq::new(start.len() as nat, |i: int| if names_of(start)[i] == name@ {
        tags_of(start)[i].insert(BehaviorView::Collect)
    } else {
        tags_of(start)[i]
    }));
}

/// Drains the command queue and applies the commands in order, as
/// `command_step` says; returns the sounds to play and the dialogue events,
/// in order.
pub fn process_script_commands(
    queue: &mut CommandQueue,
    world: &mut Vec<Body>,
    dialogues: &mut Vec<Dialogue>,
) -> (r: (Vec<String>, Vec<DialogueEvent>))
    requires
        all_wf(old(world)@),
        all_dialogues_wf(old(dialogues)@),
    ensures
        final(queue)@ == Seq::<ScriptCommand>::empty(),
        all_wf(final(world)@),
        all_dialogues_wf(final(dialogues)@),
        final(world)@.len() == old(world)@.len(),
        forall|k: int| 0 <= k < old(world)@.len() ==> same_place(old(world)@[k], #[trigger] final(world)@[k]),
        final(dialogues)@.len() == old(dialogues)@.len(),
        forall|k: int| 0 <= k < old(dialogues)@.len() ==> (#[trigger] final(dialogues)@[k]).asset == old(dialogues)@[k].asset,
        host_view(final(world)@, final(dialogues)@, r.0@, r.1@) == apply_commands(
            names_of(old(world)@),
            assets_of(old(dialogues)@),
            host_view(old(world)@, old(dialogues)@, Seq::empty(), Seq::empty()),
            command_views(old(queue)@),
        ),
{
    let commands = queue.drain();
    let ghost cs = command_views(commands@);
    let ghost names = names_of(world@);
    let ghost assets = assets_of(dialogues@);
    let ghost world0 = world@;
    let ghost dialogues0 = dialogues@;
    let mut sounds: Vec<String> = Vec::new();
    let mut events: Vec<DialogueEvent> = Vec::new();
    let ghost s0 = host_view(world@, dialogues@, sounds@, events@);
    assert(sound_views(sounds@) =~= Seq::<Seq<char>>::empty());
    assert(event_views(events@) =~= Seq::<DialogueEventView>::empty());
    assert(cs.take(0) =~= Seq::<ScriptCommandView>::empty());
    let mut i: usize = 0;
    while i < commands.len()
        invariant
            i <= commands@.len(),
            cs == command_views(commands@),
            all_wf(world@),
            all_dialogues_wf(dialogues@),
            world@.len() == world0.len(),
            forall|k: int| 0 <= k < world0.len() ==> same_place(world0[k], #[trigger] world@[k]),
            names_of(world@) == names,
            dialogues@.len() == dialogues0.len(),
            forall|k: int| 0 <= k < dialogues0.len() ==> (#[trigger] dialogues@[k]).asset == dialogues0[k].asset,
            assets_of(dialogues@) == assets,
            host_view(world@, dialogues@, sounds@, events@) == apply_commands(names, assets, s0, cs.take(i as int)),
        decreases commands@.len() - i,
    {
        let ghost before = host_view(world@, dialogues@, sounds@, events@);
        let ghost world_before = world@;
        let ghost dialogues_before = dialogues@;
        let ghost sounds_before = sounds@;
        let ghost events_before = events@;
        assert(cs.take(i + 1).drop_last() =~= cs.take(i as int));
        assert(cs.take(i + 1).last() == commands@[i as int]@);
        match &commands[i] {
            ScriptCommand::SetVisible(name, visible) => {
                set_visible_by_name(world, name, *visible);
                assert(visibility_of(world@) =~= command_step(names, assets, before, commands@[i as int]@).visible);
                assert(host_view(world@, dialogues@, sounds@, events@) =~= command_step(names, assets, before, commands@[i as int]@));
            },
            ScriptCommand::SetCollectable(name, _) => {
                make_collectable_by_name(world, name);
                assert(visibility_of(world@) =~= visibility_of(world_before));
                assert(tags_of(world@) =~= command_step(names, assets, before, commands@[i as int]@).tags);
                assert(host_view(world@, dialogues@, sounds@, events@) =~= command_step(names, assets, before, commands@[i as int]@));
            },
            ScriptCommand::StartDialogueIfExists(node_name) => {
                let (_, mut es) = begin_everywhere(dialogues, node_name.as_str());
                let ghost es_v = es@;
                events.append(&mut es);
                assert(event_views(events@) =~= event_views(events_before) + event_views(es_v));
                assert(host_view(world@, dialogues@, sounds@, events@) =~= command_step(names, assets, before, commands@[i as int]@));
            },
            ScriptCommand::PlaySound(path) => {
                sounds.push(path.clone());
                assert(sound_views(sounds@) =~= sound_views(sounds_before).push(path@));
                assert(host_view(world@, dialogues@, sounds@, events@) =~= command_step(names, assets, before, commands@[i as int]@));
            },
        }
        proof {
            assert(names_of(world@) =~= names);
            assert(assets_of(dialogues@) =~= assets);
            assert forall|k: int| 0 <= k < world0.len() implies same_place(world0[k], #[trigger] world@[k]) by {
                assert(same_place(world_before[k], world@[k]));
            }
            assert forall|k: int| 0 <= k < dialogues0.len() implies (#[trigger] dialogues@[k]).asset == dialogues0[k].asset by {
                assert(dialogues@[k].asset == dialogues_before[k].asset);
            }
        }
        i = i + 1;
    }
    assert(cs.take(cs.len() as int) =~= cs);
    (sounds, events)
}

} // verus!
