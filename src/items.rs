use vstd::prelude::*;

use crate::behavior::{BehaviorView, ColliderBehavior};
use crate::dialogue::{
    all_dialogues_wf, assets_of, begin_all, begin_everywhere, event_views, states_of, Dialogue,
    DialogueEvent, DialogueEventView, DialogueNode, DialogueState,
};
use crate::game::{DialogueSpec, DialogueSpecView, DialogueUiType, Game};
use crate::motion::{all_wf, Body, ItemInteraction};

verus! {

/// What the dispatcher asks of the host.
#[derive(Debug, Clone)]
pub enum WorldAction {
    /// Remove the collected entity and credit it to the actor's inventory.
    Remove(u64),
    /// Load the scene at this path; a path that does not resolve is logged
    /// and ignored.
    LoadScene(String),
    /// Evaluate this script code now.
    RunScript(String),
}

/// A `WorldAction` with its strings as characters.
pub enum WorldActionView {
    Remove(u64),
    LoadScene(Seq<char>),
    RunScript(Seq<char>),
}

impl View for WorldAction {
    type V = WorldActionView;

    open spec fn view(&self) -> WorldActionView {
        match self {
            WorldAction::Remove(e) => WorldActionView::Remove(*e),
            WorldAction::LoadScene(p) => WorldActionView::LoadScene(p@),
            WorldAction::RunScript(c) => WorldActionView::RunScript(c@),
        }
    }
}

pub open spec fn action_views(s: Seq<WorldAction>) -> Seq<WorldActionView> {
    s.map_values(|a: WorldAction| a@)
}

/// Something that can trigger dialogue: the dialogue offered by what it
/// overlaps, kept for an explicit player action.
#[derive(Debug)]
pub struct DialogueActor {
    pub collider_dialogue: Option<DialogueSpec>,
}

impl Default for DialogueActor {
    fn default() -> (r: DialogueActor)
        ensures
            r.collider_dialogue is None,
    {
        DialogueActor { collider_dialogue: None }
    }
}

/// The items an actor has collected.
#[derive(Debug, Clone, Copy)]
pub struct Inventory {
    pub num_gems: u32,
}

impl Default for Inventory {
    fn default() -> (r: Inventory)
        ensures
            r.num_gems == 0,
    {
        Inventory { num_gems: 0 }
    }
}

/// The number of removals among the actions.
pub open spec fn removal_count(actions: Seq<WorldActionView>) -> nat
    decreases actions.len(),
{
    if actions.len() == 0 {
        0
    } else {
        removal_count(actions.drop_last()) + if actions.last() is Remove {
            1nat
        } else {
            0nat
        }
    }
}

impl Inventory {
    /// Credits one item for each removal among the actions, up to the
    /// largest count the inventory holds.
    pub fn credit(&mut self, actions: &Vec<WorldAction>)
        ensures
            final(self).num_gems == if old(self).num_gems + removal_count(action_views(actions@)) > u32::MAX {
                u32::MAX as int
            } else {
                old(self).num_gems + removal_count(action_views(actions@))
            },
    {
        let mut i: usize = 0;
        assert(action_views(actions@).take(0) =~= Seq::<WorldActionView>::empty());
        while i < actions.len()
            invariant
                i <= actions@.len(),
                self.num_gems == if old(self).num_gems + removal_count(action_views(actions@).take(i as int)) > u32::MAX {
                    u32::MAX as int
                } else {
                    old(self).num_gems + removal_count(action_views(actions@).take(i as int))
                },
            decreases actions@.len() - i,
        {
            let ghost views = action_views(actions@);
            assert(views.take(i + 1).drop_last() =~= views.take(i as int));
            assert(views.take(i + 1).last() == actions@[i as int]@);
            if let WorldAction::Remove(_) = &actions[i] {
                self.num_gems = self.num_gems.saturating_add(1);
            }
            i = i + 1;
        }
        assert(action_views(actions@).take(actions@.len() as int) =~= action_views(actions@));
    }
}

/// What the dispatcher reads and changes: the tags of each body, the
/// dialogue offered to the actor, the state of each dialogue, the dialogue
/// window, and the actions and dialogue events handed out so far.
pub struct DispatchView {
    pub tags: Seq<Set<BehaviorView>>,
    pub offered: Option<DialogueSpecView>,
    pub dialogues: Seq<DialogueState>,
    pub dialogue_ui: Option<DialogueUiType>,
    pub actions: Seq<WorldActionView>,
    pub events: Seq<DialogueEventView>,
}

pub open spec fn tags_of(world: Seq<Body>) -> Seq<Set<BehaviorView>> {
    world.map_values(|b: Body| b.collider.tags())
}

pub open spec fn entities_of(world: Seq<Body>) -> Seq<u64> {
    world.map_values(|b: Body| b.entity)
}

pub open spec fn offer_view(o: Option<DialogueSpec>) -> Option<DialogueSpecView> {
    match o {
        Some(s) => Some(s@),
        None => None,
    }
}

pub open spec fn behavior_views(bs: Seq<ColliderBehavior>) -> Seq<BehaviorView> {
    bs.map_values(|b: ColliderBehavior| b@)
}

/// The dispatcher's view of the world, the actor, the dialogues, the game
/// and the output so far.
pub open spec fn dispatch_view(
    world: Seq<Body>,
    actor: DialogueActor,
    dialogues: Seq<Dialogue>,
    game: Game,
    actions: Seq<WorldAction>,
    events: Seq<DialogueEvent>,
) -> DispatchView {
    DispatchView {
        tags: tags_of(world),
        offered: offer_view(actor.collider_dialogue),
        dialogues: states_of(dialogues),
        dialogue_ui: game.dialogue_ui,
        actions: action_views(actions),
        events: event_views(events),
    }
}

/// A body keeps everything but its tags.
pub open spec fn same_but_tags(a: Body, b: Body) -> bool {
    &&& a.entity == b.entity
    &&& a.name == b.name
    &&& a.scene == b.scene
    &&& a.visible == b.visible
    &&& a.x == b.x
    &&& a.y == b.y
    &&& a.z == b.z
    &&& a.collider.half_width == b.collider.half_width
    &&& a.collider.half_height == b.collider.half_height
    &&& a.collider.offset_x == b.collider.offset_x
    &&& a.collider.offset_y == b.collider.offset_y
}

/// Some body of entity `object` carries `Collect`.
pub open spec fn holds_collect(entities: Seq<u64>, tags: Seq<Set<BehaviorView>>, object: u64) -> bool {
    exists|i: int| 0 <= i < entities.len() && entities[i] == object && #[trigger] tags[i].contains(BehaviorView::Collect)
}

/// The tags once every body of entity `object` has lost `Collect`.
pub open spec fn without_collect(entities: Seq<u64>, tags: Seq<Set<BehaviorView>>, object: u64) -> Seq<Set<BehaviorView>> {
    Seq::new(tags.len(), |i: int| if entities[i] == object {
        tags[i].remove(BehaviorView::Collect)
    } else {
        tags[i]
    })
}

/// Dispatches one tag of an interaction with `object`.
pub open spec fn dispatch_step(
    entities: Seq<u64>,
    assets: Seq<Seq<DialogueNode>>,
    s: DispatchView,
    object: u64,
    b: BehaviorView,
) -> DispatchView {
    match b {
        BehaviorView::Obstruct => s,
        BehaviorView::Collect => if holds_collect(entities, s.tags, object) {
            DispatchView {
                tags: without_collect(entities, s.tags, object),
                actions: s.actions.push(WorldActionView::Remove(object)),
                ..s
            }
        } else {
            s
        },
        BehaviorView::Load(path) => DispatchView {
            actions: s.actions.push(WorldActionView::LoadScene(path)),
            ..s
        },
        BehaviorView::Dialogue(spec) => if spec.auto_display {
            let r = begin_all(assets, s.dialogues, spec.node_name);
            DispatchView {
                dialogues: r.0,
                events: s.events + r.1,
                dialogue_ui: if r.2 {
                    Some(spec.ui_type)
                } else {
                    s.dialogue_ui
                },
                ..s
            }
        } else {
            DispatchView { offered: Some(spec), ..s }
        },
        BehaviorView::Script(code) => DispatchView {
            actions: s.actions.push(WorldActionView::RunScript(code)),
            ..s
        },
    }
}

/// Dispatches the tags `bs` of an interaction with `object`, in order.
pub open spec fn dispatch_behaviors(
    entities: Seq<u64>,
    assets: Seq<Seq<DialogueNode>>,
    s: DispatchView,
    object: u64,
    bs: Seq<BehaviorView>,
) -> DispatchView
    decreases bs.len(),
{
    if bs.len() == 0 {
        s
    } else {
        dispatch_step(
            entities,
            assets,
            dispatch_behaviors(entities, assets, s, object, bs.drop_last()),
            object,
            bs.last(),
        )
    }
}

/// Dispatches the interactions, in order.
pub open spec fn dispatch_all(
    entities: Seq<u64>,
    assets: Seq<Seq<DialogueNode>>,
    s: DispatchView,
    interactions: Seq<ItemInteraction>,
) -> DispatchView
    decreases interactions.len(),
{
    if interactions.len() == 0 {
        s
    } else {
        dispatch_behaviors(
            entities,
            assets,
            dispatch_all(entities, assets, s, interactions.drop_last()),
            interactions.last().object,
            behavior_views(interactions.last().behaviors@),
        )
    }
}

/// Takes `Collect` off every body of entity `object`; tells whether one
/// had it.
fn strip_collect(world: &mut Vec<Body>, object: u64) -> (found: bool)
    requires
        all_wf(old(world)@),
    ensures
        all_wf(final(world)@),
        final(world)@.len() == old(world)@.len(),
        forall|k: int| 0 <= k < old(world)@.len() ==> same_but_tags(old(world)@[k], #[trigger] final(world)@[k]),
        found == holds_collect(entities_of(old(world)@), tags_of(old(world)@), object),
        tags_of(final(world)@) == without_collect(entities_of(old(world)@), tags_of(old(world)@), object),
{
    let ghost start = world@;
    let collect = ColliderBehavior::Collect;
    let mut found = false;
    let mut i: usize = 0;
    while i < world.len()
        invariant
            i <= world@.len(),
            world@.len() == start.len(),
            all_wf(world@),
            collect@ == BehaviorView::Collect,
            forall|k: int| 0 <= k < start.len() ==> same_but_tags(start[k], #[trigger] world@[k]),
            forall|k: int| i <= k < start.len() ==> #[trigger] world@[k] == start[k],
            forall|k: int| 0 <= k < i ==> (#[trigger] world@[k]).collider.tags() == without_collect(entities_of(start), tags_of(start), object)[k],
            found == exists|k: int| 0 <= k < i && start[k].entity == object && #[trigger] start[k].collider.tags().contains(BehaviorView::Collect),
        decreases start.len() - i,
    {
        let ghost before = world@;
        if world[i].entity == object {
            assert(world@[i as int].wf());
            if world[i].collider.has_behavior(&collect) {
                found = true;
            }
            world[i].collider.remove_behavior(&collect);
        }
        proof {
            assert(forall|k: int| 0 <= k < start.len() && k != i ==> #[trigger] world@[k] == before[k]);
            assert(all_wf(world@)) by {
                assert forall|k: int| 0 <= k < world@.len() implies #[trigger] world@[k].wf() by {
                    if k != i {
                        assert(world@[k] == before[k]);
                    }
                }
            }
        }
        i = i + 1;
    }
    proof {
        let ents = entities_of(start);
        let tags = tags_of(start);
        if found {
            let k = choose|k: int| 0 <= k < start.len() && start[k].entity == object && #[trigger] start[k].collider.tags().contains(BehaviorView::Collect);
            assert(ents[k] == object && tags[k].contains(BehaviorView::Collect));
        }
        if holds_collect(ents, tags, object) {
            let k = choose|k: int| 0 <= k < ents.len() && ents[k] == object && #[trigger] tags[k].contains(BehaviorView::Collect);
            assert(start[k].collider.tags().contains(BehaviorView::Collect));
        }
        assert(tags_of(world@) =~= without_collect(ents, tags, object));
    }
    found
}

/// Dispatches one tag of an interaction with `object`.
fn dispatch_behavior(
    behavior: &ColliderBehavior,
    object: u64,
    world: &mut Vec<Body>,
    actor: &mut DialogueActor,
    dialogues: &mut Vec<Dialogue>,
    game: &mut Game,
    actions: &mut Vec<WorldAction>,
    events: &mut Vec<DialogueEvent>,
)
    requires
        all_wf(old(world)@),
        all_dialogues_wf(old(dialogues)@),
    ensures
        all_wf(final(world)@),
        all_dialogues_wf(final(dialogues)@),
        final(world)@.len() == old(world)@.len(),
        forall|k: int| 0 <= k < old(world)@.len() ==> same_but_tags(old(world)@[k], #[trigger] final(world)@[k]),
        final(dialogues)@.len() == old(dialogues)@.len(),
        forall|k: int| 0 <= k < old(dialogues)@.len() ==> (#[trigger] final(dialogues)@[k]).asset == old(dialogues)@[k].asset,
        final(game).start_dialogue_shown == old(game).start_dialogue_shown,
        final(game).current_dialogue == old(game).current_dialogue,
        final(game).current_map == old(game).current_map,
        dispatch_view(final(world)@, *final(actor), final(dialogues)@, *final(game), final(actions)@, final(events)@)
            == dispatch_step(
            entities_of(old(world)@),
            assets_of(old(dialogues)@),
            dispatch_view(old(world)@, *old(actor), old(dialogues)@, *old(game), old(actions)@, old(events)@),
            object,
            behavior@,
        ),
{
    match behavior {
        ColliderBehavior::Obstruct => {},
        ColliderBehavior::Collect => {
            let found = strip_collect(world, object);
            if found {
                actions.push(WorldAction::Remove(object));
                assert(action_views(actions@) =~= action_views(old(actions)@).push(WorldActionView::Remove(object)));
            } else {
                let ghost ents = entities_of(old(world)@);
                let ghost tags = tags_of(old(world)@);
                assert forall|i: int| 0 <= i < tags.len() implies #[trigger] without_collect(ents, tags, object)[i] == tags[i] by {
                    if ents[i] == object {
                        assert(!tags[i].contains(BehaviorView::Collect));
                        assert(tags[i].remove(BehaviorView::Collect) =~= tags[i]);
                    }
                }
                assert(tags_of(world@) =~= tags_of(old(world)@));
            }
        },
        ColliderBehavior::Load { path } => {
            actions.push(WorldAction::LoadScene(path.clone()));
            assert(action_views(actions@) =~= action_views(old(actions)@).push(WorldActionView::LoadScene(path@)));
        },
        ColliderBehavior::Dialogue(spec) => {
            if spec.auto_display {
                let (began, mut es) = begin_everywhere(dialogues, spec.node_name.as_str());
                let ghost es_v = es@;
                events.append(&mut es);
                assert(event_views(events@) =~= event_views(old(events)@) + event_views(es_v));
                if began {
                    game.dialogue_ui = Some(spec.ui_type);
                }
                proof {
                    let r = begin_all(assets_of(old(dialogues)@), states_of(old(dialogues)@), spec.node_name@);
                    assert(event_views(events@) =~= event_views(old(events)@) + r.1);
                }
            } else {
                actor.collider_dialogue = Some(spec.copied());
            }
        },
        ColliderBehavior::Script(code) => {
            actions.push(WorldAction::RunScript(code.clone()));
            assert(action_views(actions@) =~= action_views(old(actions)@).push(WorldActionView::RunScript(code@)));
        },
    }
}

/// No entity is removed twice.
pub open spec fn removals_unique(actions: Seq<WorldActionView>) -> bool {
    forall|i: int, j: int|
        0 <= i < j < actions.len() && #[trigger] actions[i] is Remove && #[trigger] actions[j] is Remove
            ==> actions[i]->Remove_0 != actions[j]->Remove_0
}

/// No removed entity still has a body that carries `Collect`.
pub open spec fn removed_cleared(entities: Seq<u64>, tags: Seq<Set<BehaviorView>>, actions: Seq<WorldActionView>) -> bool {
    forall|i: int|
        0 <= i < actions.len() && #[trigger] actions[i] is Remove ==> !holds_collect(entities, tags, actions[i]->Remove_0)
}

/// Dispatching a tag removes an entity only while one of its bodies
/// carries `Collect`, and takes `Collect` off all of them as it does.
pub proof fn lemma_step_keeps_removals_unique(
    entities: Seq<u64>,
    assets: Seq<Seq<DialogueNode>>,
    s: DispatchView,
    object: u64,
    b: BehaviorView,
)
    requires
        s.tags.len() == entities.len(),
        removals_unique(s.actions),
        removed_cleared(entities, s.tags, s.actions),
    ensures
        ({
            let t = dispatch_step(entities, assets, s, object, b);
            &&& t.tags.len() == entities.len()
            &&& removals_unique(t.actions)
            &&& removed_cleared(entities, t.tags, t.actions)
        }),
{
    let t = dispatch_step(entities, assets, s, object, b);
    match b {
        BehaviorView::Collect => {
            if holds_collect(entities, s.tags, object) {
                let n = s.actions.len();
                assert(t.actions[n as int] is Remove);
                assert forall|i: int| 0 <= i < n && #[trigger] s.actions[i] is Remove implies s.actions[i]->Remove_0 != object by {
                    assert(!holds_collect(entities, s.tags, s.actions[i]->Remove_0));
                }
                assert forall|i: int, j: int|
                    0 <= i < j < t.actions.len() && #[trigger] t.actions[i] is Remove && #[trigger] t.actions[j] is Remove
                    implies t.actions[i]->Remove_0 != t.actions[j]->Remove_0 by {
                    if j == n {
                        assert(t.actions[i] == s.actions[i]);
                    } else {
                        assert(t.actions[i] == s.actions[i]);
                        assert(t.actions[j] == s.actions[j]);
                    }
                }
                assert forall|i: int| 0 <= i < t.actions.len() && #[trigger] t.actions[i] is Remove
                    implies !holds_collect(entities, t.tags, t.actions[i]->Remove_0) by {
                    let o = t.actions[i]->Remove_0;
                    if holds_collect(entities, t.tags, o) {
                        let k = choose|k: int| 0 <= k < entities.len() && entities[k] == o && #[trigger] t.tags[k].contains(BehaviorView::Collect);
                        if entities[k] == object {
                            assert(!t.tags[k].contains(BehaviorView::Collect));
                        } else {
                            assert(t.tags[k] == s.tags[k]);
                            assert(i < n);
                            assert(t.actions[i] == s.actions[i]);
                            assert(s.tags[k].contains(BehaviorView::Collect));
                            assert(holds_collect(entities, s.tags, o));
                        }
                    }
                }
            }
        },
        BehaviorView::Load(path) => {
            assert forall|i: int| 0 <= i < t.actions.len() && #[trigger] t.actions[i] is Remove implies i < s.actions.len() by {}
            assert forall|i: int| 0 <= i < s.actions.len() implies #[trigger] t.actions[i] == s.actions[i] by {}
        },
        BehaviorView::Script(code) => {
            assert forall|i: int| 0 <= i < t.actions.len() && #[trigger] t.actions[i] is Remove implies i < s.actions.len() by {}
            assert forall|i: int| 0 <= i < s.actions.len() implies #[trigger] t.actions[i] == s.actions[i] by {}
        },
        _ => {},
    }
}

/// Routes the interactions of a frame, tag by tag and in order:
/// `Collect` takes `Collect` off every body of the object and asks for the
/// object's removal, unless none of them still had it; `Load` asks for the
/// scene; a `Dialogue` that displays itself starts its node on every
/// dialogue that has it and shows its window if one began, and any other
/// `Dialogue` is offered to the actor; `Script` asks for its code to run;
/// `Obstruct` does nothing here. No entity is removed twice.
pub fn dispatch_interactions(
    interactions: &Vec<ItemInteraction>,
    world: &mut Vec<Body>,
    actor: &mut DialogueActor,
    dialogues: &mut Vec<Dialogue>,
    game: &mut Game,
) -> (r: (Vec<WorldAction>, Vec<DialogueEvent>))
    requires
        all_wf(old(world)@),
        all_dialogues_wf(old(dialogues)@),
    ensures
        all_wf(final(world)@),
        all_dialogues_wf(final(dialogues)@),
        final(world)@.len() == old(world)@.len(),
        forall|k: int| 0 <= k < old(world)@.len() ==> same_but_tags(old(world)@[k], #[trigger] final(world)@[k]),
        final(dialogues)@.len() == old(dialogues)@.len(),
        forall|k: int| 0 <= k < old(dialogues)@.len() ==> (#[trigger] final(dialogues)@[k]).asset == old(dialogues)@[k].asset,
        final(game).start_dialogue_shown == old(game).start_dialogue_shown,
        final(game).current_dialogue == old(game).current_dialogue,
        final(game).current_map == old(game).current_map,
        dispatch_view(final(world)@, *final(actor), final(dialogues)@, *final(game), r.0@, r.1@)
            == dispatch_all(
            entities_of(old(world)@),
            assets_of(old(dialogues)@),
            dispatch_view(old(world)@, *old(actor), old(dialogues)@, *old(game), Seq::empty(), Seq::empty()),
            interactions@,
        ),
        removals_unique(action_views(r.0@)),
{
    let ghost ents = entities_of(world@);
    let ghost assets = assets_of(dialogues@);
    let ghost world0 = world@;
    let ghost dialogues0 = dialogues@;
    let ghost game0 = *game;
    let mut actions: Vec<WorldAction> = Vec::new();
    let mut events: Vec<DialogueEvent> = Vec::new();
    let ghost s0 = dispatch_view(world@, *actor, dialogues@, *game, actions@, events@);
    assert(action_views(actions@) =~= Seq::<WorldActionView>::empty());
    assert(interactions@.take(0) =~= Seq::<ItemInteraction>::empty());
    let mut j: usize = 0;
    while j < interactions.len()
        invariant
            j <= interactions@.len(),
            all_wf(world@),
            all_dialogues_wf(dialogues@),
            world@.len() == world0.len(),
            forall|k: int| 0 <= k < world0.len() ==> same_but_tags(world0[k], #[trigger] world@[k]),
            entities_of(world@) == ents,
            dialogues@.len() == dialogues0.len(),
            forall|k: int| 0 <= k < dialogues0.len() ==> (#[trigger] dialogues@[k]).asset == dialogues0[k].asset,
            assets_of(dialogues@) == assets,
            game.start_dialogue_shown == game0.start_dialogue_shown,
            game.current_dialogue == game0.current_dialogue,
            game.current_map == game0.current_map,
            dispatch_view(world@, *actor, dialogues@, *game, actions@, events@) == dispatch_all(ents, assets, s0, interactions@.take(j as int)),
            removals_unique(action_views(actions@)),
            removed_cleared(ents, tags_of(world@), action_views(actions@)),
        decreases interactions@.len() - j,
    {
        let interaction = &interactions[j];
        let ghost bvs = behavior_views(interaction.behaviors@);
        let ghost start = dispatch_all(ents, assets, s0, interactions@.take(j as int));
        assert(interactions@.take(j + 1).drop_last() =~= interactions@.take(j as int));
        assert(interactions@.take(j + 1).last() == interactions@[j as int]);
        assert(bvs.take(0) =~= Seq::<BehaviorView>::empty());
        let mut k: usize = 0;
        while k < interaction.behaviors.len()
            invariant
                k <= interaction.behaviors@.len(),
                bvs == behavior_views(interaction.behaviors@),
                all_wf(world@),
                all_dialogues_wf(dialogues@),
                world@.len() == world0.len(),
                forall|i: int| 0 <= i < world0.len() ==> same_but_tags(world0[i], #[trigger] world@[i]),
                entities_of(world@) == ents,
                dialogues@.len() == dialogues0.len(),
                forall|i: int| 0 <= i < dialogues0.len() ==> (#[trigger] dialogues@[i]).asset == dialogues0[i].asset,
                assets_of(dialogues@) == assets,
                game.start_dialogue_shown == game0.start_dialogue_shown,
                game.current_dialogue == game0.current_dialogue,
                game.current_map == game0.current_map,
                dispatch_view(world@, *actor, dialogues@, *game, actions@, events@) == dispatch_behaviors(ents, assets, start, interaction.object, bvs.take(k as int)),
                removals_unique(action_views(actions@)),
                removed_cleared(ents, tags_of(world@), action_views(actions@)),
            decreases interaction.behaviors@.len() - k,
        {
            let ghost before = dispatch_view(world@, *actor, dialogues@, *game, actions@, events@);
            let ghost world_before = world@;
            let ghost dialogues_before = dialogues@;
            proof {
                lemma_step_keeps_removals_unique(ents, assets, before, interaction.object, bvs[k as int]);
            }
            dispatch_behavior(&interaction.behaviors[k], interaction.object, world, actor, dialogues, game, &mut actions, &mut events);
            proof {
                assert(bvs.take(k + 1).drop_last() =~= bvs.take(k as int));
                assert(bvs.take(k + 1).last() == bvs[k as int]);
                assert(entities_of(world_before) == ents);
                assert(entities_of(world@) =~= ents);
                assert(assets_of(dialogues@) =~= assets);
                assert forall|i: int| 0 <= i < world0.len() implies same_but_tags(world0[i], #[trigger] world@[i]) by {
                    assert(same_but_tags(world_before[i], world@[i]));
                }
                assert forall|i: int| 0 <= i < dialogues0.len() implies (#[trigger] dialogues@[i]).asset == dialogues0[i].asset by {
                    assert(dialogues@[i].asset == dialogues_before[i].asset);
                }
            }
            k = k + 1;
        }
        assert(bvs.take(bvs.len() as int) =~= bvs);
        j = j + 1;
    }
    assert(interactions@.take(interactions@.len() as int) =~= interactions@);
    (actions, events)
}

} // verus!
