use vstd::prelude::*;

use crate::character::{Character, CharacterState, Direction};
use crate::dialogue::{
    advance_spec, all_dialogues_wf, assets_of, begin_all, begin_everywhere, event_views,
    states_of, Dialogue, DialogueEvent, DialogueEventView, DialogueNode, DialogueState,
};
use crate::game::{DialogueSpecView, DialogueUiType, Game};
use crate::items::{offer_view, DialogueActor};

verus! {

/// The actions that raw input is mapped to.
#[derive(Debug, Copy, Clone, PartialEq, Eq, Hash, Structural)]
pub enum Action {
    Up,
    Down,
    Left,
    Right,
    Walk,
    Accept,
}

/// The actions that are active this frame, each for a player. Its view is
/// the set of active (action, player) pairs.
#[derive(Debug)]
pub struct InputActionSet {
    actions: Vec<(Action, u32)>,
}

impl View for InputActionSet {
    type V = Set<(Action, u32)>;

    closed spec fn view(&self) -> Set<(Action, u32)> {
        self.actions@.to_set()
    }
}

impl Default for InputActionSet {
    fn default() -> (r: InputActionSet)
        ensures
            r@ == Set::<(Action, u32)>::empty(),
    {
        let r = InputActionSet { actions: Vec::new() };
        assert(r.actions@.to_set() =~= Set::<(Action, u32)>::empty());
        r
    }
}

impl InputActionSet {
    /// Whether `action` is active for `player`.
    pub fn is_active(&self, action: Action, player: u32) -> (r: bool)
        ensures
            r == self@.contains((action, player)),
    {
        let mut i: usize = 0;
        while i < self.actions.len()
            invariant
                i <= self.actions@.len(),
                forall|k: int| 0 <= k < i ==> self.actions@[k] != (action, player),
            decreases self.actions@.len() - i,
        {
            let (a, p) = self.actions[i];
            if a == action && p == player {
                assert(self.actions@.to_set().contains(self.actions@[i as int]));
                return true;
            }
            i = i + 1;
        }
        false
    }

    /// Makes `action` active for `player`.
    pub fn activate(&mut self, action: Action, player: u32)
        ensures
            final(self)@ == old(self)@.insert((action, player)),
    {
        let ghost before = self.actions@;
        self.actions.push((action, player));
        assert(self.actions@.to_set() =~= before.to_set().insert((action, player))) by {
            assert forall|x: (Action, u32)| self.actions@.contains(x) implies before.contains(x) || x == (action, player) by {
                let k = choose|k: int| 0 <= k < self.actions@.len() && self.actions@[k] == x;
                if k < before.len() {
                    assert(before[k] == x);
                }
            }
            assert forall|x: (Action, u32)| before.contains(x) implies self.actions@.contains(x) by {
                let k = choose|k: int| 0 <= k < before.len() && before[k] == x;
                assert(self.actions@[k] == x);
            }
            assert(self.actions@[before.len() as int] == (action, player));
        }
    }

    /// Makes no action active.
    pub fn clear(&mut self)
        ensures
            final(self)@ == Set::<(Action, u32)>::empty(),
    {
        self.actions.clear();
        assert(self.actions@.to_set() =~= Set::<(Action, u32)>::empty());
    }
}

/// What the directional input of a player asks for: the way to face, if
/// any, the axis signs of the move, and the resulting state.
#[derive(Debug, Copy, Clone, PartialEq, Eq, Structural)]
pub struct MovementIntent {
    pub direction: Option<Direction>,
    pub axis_x: i32,
    pub axis_y: i32,
    pub state: CharacterState,
}

/// The intent of a set of active actions. Up and down are read before left
/// and right, so a player who presses two directions faces left or right.
/// Walking slows running down to walking.
pub open spec fn intent_of(active: Set<(Action, u32)>, player: u32) -> MovementIntent {
    let up = active.contains((Action::Up, player));
    let down = active.contains((Action::Down, player));
    let left = active.contains((Action::Left, player));
    let right = active.contains((Action::Right, player));
    let moving = up || down || left || right;
    let direction = if right {
        Some(Direction::East)
    } else if left {
        Some(Direction::West)
    } else if down {
        Some(Direction::South)
    } else if up {
        Some(Direction::North)
    } else {
        None
    };
    let state = if !moving {
        CharacterState::Idle
    } else if active.contains((Action::Walk, player)) {
        CharacterState::Walking
    } else {
        CharacterState::Running
    };
    MovementIntent {
        direction,
        axis_x: if right {
            1i32
        } else if left {
            -1i32
        } else {
            0i32
        },
        axis_y: if down {
            -1i32
        } else if up {
            1i32
        } else {
            0i32
        },
        state,
    }
}

/// Reads the movement intent of `player`.
pub fn movement_intent(input: &InputActionSet, player: u32) -> (r: MovementIntent)
    ensures
        r == intent_of(input@, player),
{
    let mut direction: Option<Direction> = None;
    let mut axis_x: i32 = 0;
    let mut axis_y: i32 = 0;
    let mut state = CharacterState::Idle;
    if input.is_active(Action::Up, player) {
        direction = Some(Direction::North);
        axis_y = 1;
        state = CharacterState::Running;
    }
    if input.is_active(Action::Down, player) {
        direction = Some(Direction::South);
        axis_y = -1;
        state = CharacterState::Running;
    }
    if input.is_active(Action::Left, player) {
        direction = Some(Direction::West);
        axis_x = -1;
        state = CharacterState::Running;
    }
    if input.is_active(Action::Right, player) {
        direction = Some(Direction::East);
        axis_x = 1;
        state = CharacterState::Running;
    }
    if input.is_active(Action::Walk, player) {
        state = match state {
            CharacterState::Running => CharacterState::Walking,
            CharacterState::Idle | CharacterState::Walking => state,
        };
    }
    MovementIntent { direction, axis_x, axis_y, state }
}

/// The velocity of an intent: a straight move is `unit` long, and a
/// diagonal one has `diagonal` on each axis.
pub open spec fn velocity_of(intent: MovementIntent, unit: i32, diagonal: i32) -> (int, int) {
    let scale = if intent.axis_x != 0 && intent.axis_y != 0 {
        diagonal as int
    } else {
        unit as int
    };
    (intent.axis_x * scale, intent.axis_y * scale)
}

/// `axis * scale` for an axis sign.
fn scaled(axis: i32, scale: i32) -> (r: i32)
    requires
        -1 <= axis <= 1,
        scale > i32::MIN,
    ensures
        r == axis * scale,
{
    if axis == 1 {
        assert(axis * scale == scale) by (nonlinear_arith)
            requires
                axis == 1,
        ;
        scale
    } else if axis == -1 {
        assert(axis * scale == -scale) by (nonlinear_arith)
            requires
                axis == -1,
        ;
        -scale
    } else {
        assert(axis * scale == 0) by (nonlinear_arith)
            requires
                axis == 0,
        ;
        0
    }
}

/// Whether some dialogue of the list is in progress.
pub open spec fn any_in_progress(dialogues: Seq<Dialogue>) -> bool {
    exists|k: int| 0 <= k < dialogues.len() && !(#[trigger] dialogues[k]).is_end
}

/// Steers a player's character from its input, unless a dialogue window
/// that stops movement is up while a dialogue is in progress. The speed is
/// `walk_speed` while walking is held and `run_speed` otherwise; the way the
/// character faces changes only when a direction is pressed. Returns
/// whether it steered.
pub fn handle_movement_input(
    input: &InputActionSet,
    player: u32,
    game: &Game,
    dialogues: &Vec<Dialogue>,
    character: &mut Character,
    unit: i32,
    diagonal: i32,
    walk_speed: i32,
    run_speed: i32,
) -> (r: bool)
    requires
        unit > i32::MIN,
        diagonal > i32::MIN,
    ensures
        r == !(any_in_progress(dialogues@) && game.in_dialogue()),
        !r ==> *final(character) == *old(character),
        r ==> ({
            let intent = intent_of(input@, player);
            &&& final(character).velocity_x == velocity_of(intent, unit, diagonal).0
            &&& final(character).velocity_y == velocity_of(intent, unit, diagonal).1
            &&& final(character).movement_speed == (if input@.contains((Action::Walk, player)) {
                walk_speed
            } else {
                run_speed
            })
            &&& final(character).direction == (match intent.direction {
                Some(d) => d,
                None => old(character).direction,
            })
            &&& final(character).state == intent.state
            &&& final(character).previous_state == old(character).state
            &&& final(character).collision == old(character).collision
        }),
{
    if game.is_in_dialogue() {
        let mut i: usize = 0;
        while i < dialogues.len()
            invariant
                i <= dialogues@.len(),
                game.in_dialogue(),
                forall|k: int| 0 <= k < i ==> (#[trigger] dialogues@[k]).is_end,
            decreases dialogues@.len() - i,
        {
            if dialogues[i].in_progress() {
                assert(!dialogues@[i as int].is_end);
                return false;
            }
            i = i + 1;
        }
    }
    let intent = movement_intent(input, player);
    assert(-1 <= intent.axis_x <= 1 && -1 <= intent.axis_y <= 1);
    let scale: i32 = if intent.axis_x != 0 && intent.axis_y != 0 {
        diagonal
    } else {
        unit
    };
    character.velocity_x = scaled(intent.axis_x, scale);
    character.velocity_y = scaled(intent.axis_y, scale);
    character.movement_speed = if input.is_active(Action::Walk, player) {
        walk_speed
    } else {
        run_speed
    };
    if let Some(d) = intent.direction {
        character.direction = d;
    }
    character.set_state(intent.state);
    true
}

/// The dialogues that the actors offer, in order.
pub open spec fn offers_of(actors: Seq<DialogueActor>) -> Seq<Option<DialogueSpecView>> {
    actors.map_values(|a: DialogueActor| offer_view(a.collider_dialogue))
}

/// Tries the offered dialogues in order, starting each on every dialogue
/// that has its node, until one begins somewhere; that one's window is
/// shown. Gives the new dialogue states, the events, and the window.
pub open spec fn trigger_offers(
    assets: Seq<Seq<DialogueNode>>,
    states: Seq<DialogueState>,
    offers: Seq<Option<DialogueSpecView>>,
    ui: Option<DialogueUiType>,
) -> (Seq<DialogueState>, Seq<DialogueEventView>, Option<DialogueUiType>)
    decreases offers.len(),
{
    if offers.len() == 0 {
        (states, Seq::empty(), ui)
    } else {
        let rest = offers.subrange(1, offers.len() as int);
        match offers[0] {
            Some(spec) => {
                let r = begin_all(assets, states, spec.node_name);
                if r.2 {
                    (r.0, r.1, Some(spec.ui_type))
                } else {
                    let t = trigger_offers(assets, r.0, rest, ui);
                    (t.0, r.1 + t.1, t.2)
                }
            },
            None => trigger_offers(assets, states, rest, ui),
        }
    }
}

/// The player accepts: the current dialogue moves on if it is in progress;
/// otherwise the dialogues that the actors offer are tried, as
/// `trigger_offers` says.
pub fn handle_accept(
    current: usize,
    dialogues: &mut Vec<Dialogue>,
    actors: &Vec<DialogueActor>,
    game: &mut Game,
) -> (r: Vec<DialogueEvent>)
    requires
        current < old(dialogues)@.len(),
        all_dialogues_wf(old(dialogues)@),
    ensures
        all_dialogues_wf(final(dialogues)@),
        final(dialogues)@.len() == old(dialogues)@.len(),
        forall|k: int| 0 <= k < old(dialogues)@.len() ==> (#[trigger] final(dialogues)@[k]).asset == old(dialogues)@[k].asset,
        final(game).start_dialogue_shown == old(game).start_dialogue_shown,
        final(game).current_dialogue == old(game).current_dialogue,
        final(game).current_map == old(game).current_map,
        !old(dialogues)@[current as int].is_end ==> {
            let a = advance_spec(old(dialogues)@[current as int].asset.nodes@, old(dialogues)@[current as int].state());
            &&& final(dialogues)@[current as int].state() == a.0
            &&& event_views(r@) == a.1
            &&& forall|k: int| 0 <= k < old(dialogues)@.len() && k != current ==> #[trigger] final(dialogues)@[k] == old(dialogues)@[k]
            &&& final(game).dialogue_ui == old(game).dialogue_ui
        },
        old(dialogues)@[current as int].is_end ==> {
            let t = trigger_offers(assets_of(old(dialogues)@), states_of(old(dialogues)@), offers_of(actors@), old(game).dialogue_ui);
            &&& states_of(final(dialogues)@) == t.0
            &&& event_views(r@) == t.1
            &&& final(game).dialogue_ui == t.2
        },
{
    if dialogues[current].in_progress() {
        assert(dialogues@[current as int].wf());
        let ghost before = dialogues@;
        let events = dialogues[current].advance();
        assert(forall|k: int| 0 <= k < before.len() && k != current ==> #[trigger] dialogues@[k] == before[k]);
        return events;
    }
    let ghost assets = assets_of(dialogues@);
    let ghost dialogues0 = dialogues@;
    let ghost offers = offers_of(actors@);
    let ghost total = trigger_offers(assets, states_of(dialogues@), offers, game.dialogue_ui);
    let mut events: Vec<DialogueEvent> = Vec::new();
    assert(offers.skip(0) =~= offers);
    assert(event_views(events@) + total.1 =~= total.1);
    let mut j: usize = 0;
    while j < actors.len()
        invariant
            j <= actors@.len(),
            offers == offers_of(actors@),
            dialogues0 == old(dialogues)@,
            current < dialogues0.len(),
            dialogues0[current as int].is_end,
            total == trigger_offers(assets_of(dialogues0), states_of(dialogues0), offers, old(game).dialogue_ui),
            all_dialogues_wf(dialogues@),
            dialogues@.len() == dialogues0.len(),
            forall|k: int| 0 <= k < dialogues0.len() ==> (#[trigger] dialogues@[k]).asset == dialogues0[k].asset,
            assets_of(dialogues@) == assets,
            game.start_dialogue_shown == old(game).start_dialogue_shown,
            game.current_dialogue == old(game).current_dialogue,
            game.current_map == old(game).current_map,
            game.dialogue_ui == old(game).dialogue_ui,
            ({
                let rest = trigger_offers(assets, states_of(dialogues@), offers.skip(j as int), game.dialogue_ui);
                &&& total.0 == rest.0
                &&& total.1 == event_views(events@) + rest.1
                &&& total.2 == rest.2
            }),
        decreases actors@.len() - j,
    {
        let ghost ev_before = event_views(events@);
        let ghost states_before = states_of(dialogues@);
        let ghost dialogues_before = dialogues@;
        assert(offers.skip(j as int)[0] == offers[j as int]);
        assert(offers.skip(j as int).subrange(1, offers.skip(j as int).len() as int) =~= offers.skip(j + 1));
        match &actors[j].collider_dialogue {
            Some(spec) => {
                let (began, mut es) = begin_everywhere(dialogues, spec.node_name.as_str());
                let ghost es_v = es@;
                events.append(&mut es);
                assert(event_views(events@) =~= ev_before + event_views(es_v));
                proof {
                    assert forall|k: int| 0 <= k < dialogues0.len() implies (#[trigger] dialogues@[k]).asset == dialogues0[k].asset by {
                        assert(dialogues@[k].asset == dialogues_before[k].asset);
                    }
                    assert(assets_of(dialogues@) =~= assets);
                }
                if began {
                    game.dialogue_ui = Some(spec.ui_type);
                    assert(event_views(events@) =~= event_views(events@) + Seq::<DialogueEventView>::empty());
                    return events;
                }
                proof {
                    let rest = trigger_offers(assets, states_of(dialogues@), offers.skip(j + 1), game.dialogue_ui);
                    assert(ev_before + (event_views(es_v) + rest.1) =~= event_views(events@) + rest.1);
                }
            },
            None => {},
        }
        j = j + 1;
    }
    assert(offers.skip(actors@.len() as int) =~= Seq::<Option<DialogueSpecView>>::empty());
    assert(event_views(events@) + Seq::<DialogueEventView>::empty() =~= event_views(events@));
    events
}

} // verus!
