use adventure_core::animation::{next_frame, wants_step_frame, AnimatedSprite};
use adventure_core::behavior::ColliderBehavior;
use adventure_core::character::{Character, CharacterState, Direction};
use adventure_core::dialogue::{Dialogue, DialogueAsset, DialogueEvent, DialogueNode, DialoguePlaceholder, NodeBody};
use adventure_core::game::{DialogueSpec, DialogueUiType, Game};
use adventure_core::input::{handle_accept, handle_movement_input, movement_intent, Action, InputActionSet};
use adventure_core::items::DialogueActor;

fn game(ui: Option<DialogueUiType>) -> Game {
    Game { start_dialogue_shown: false, dialogue_ui: ui, current_dialogue: None, current_map: 0 }
}

fn talk_dialogue() -> Dialogue {
    let asset = DialogueAsset {
        name: "d".to_string(),
        nodes: vec![
            DialogueNode { name: "Hi".to_string(), body: NodeBody::Text("hello".to_string()), next: None },
            DialogueNode { name: "".to_string(), body: NodeBody::End, next: None },
        ],
    };
    Dialogue::new(&DialoguePlaceholder::default(), asset)
}

#[test]
fn action_set_membership() {
    let mut set = InputActionSet::default();
    assert!(!set.is_active(Action::Up, 0));
    set.activate(Action::Up, 0);
    set.activate(Action::Up, 0);
    assert!(set.is_active(Action::Up, 0));
    assert!(!set.is_active(Action::Up, 1));
    set.clear();
    assert!(!set.is_active(Action::Up, 0));
}

#[test]
fn left_right_win_over_up_down() {
    let mut set = InputActionSet::default();
    set.activate(Action::Up, 0);
    set.activate(Action::Left, 0);
    let i = movement_intent(&set, 0);
    assert_eq!(i.direction, Some(Direction::West));
    assert_eq!((i.axis_x, i.axis_y), (-1, 1));
    assert_eq!(i.state, CharacterState::Running);
    set.activate(Action::Walk, 0);
    assert_eq!(movement_intent(&set, 0).state, CharacterState::Walking);
    let idle = movement_intent(&set, 1);
    assert_eq!(idle.direction, None);
    assert_eq!(idle.state, CharacterState::Idle);
}

#[test]
fn steering_sets_velocity_speed_and_state() {
    let mut set = InputActionSet::default();
    set.activate(Action::Down, 0);
    set.activate(Action::Right, 0);
    let mut c = Character::default();
    let ds: Vec<Dialogue> = vec![];
    assert!(handle_movement_input(&set, 0, &game(None), &ds, &mut c, 1000, 707, 2, 5));
    assert_eq!((c.velocity_x, c.velocity_y), (707, -707));
    assert_eq!(c.movement_speed, 5);
    assert_eq!(c.direction, Direction::East);
    assert_eq!(c.state(), CharacterState::Running);
    let released = InputActionSet::default();
    assert!(handle_movement_input(&released, 0, &game(None), &ds, &mut c, 1000, 707, 2, 5));
    assert_eq!((c.velocity_x, c.velocity_y), (0, 0));
    assert_eq!(c.direction, Direction::East);
    assert!(c.did_just_become_idle());
}

#[test]
fn no_steering_during_blocking_dialogue() {
    let mut set = InputActionSet::default();
    set.activate(Action::Up, 0);
    let mut d = talk_dialogue();
    d.begin("Hi");
    let ds = vec![d];
    let mut c = Character::default();
    assert!(!handle_movement_input(&set, 0, &game(Some(DialogueUiType::MovementDisabled)), &ds, &mut c, 1000, 707, 2, 5));
    assert_eq!(c.velocity_y, 0);
    assert!(handle_movement_input(&set, 0, &game(Some(DialogueUiType::Notice)), &ds, &mut c, 1000, 707, 2, 5));
    assert_eq!(c.velocity_y, 1000);
}

#[test]
fn accept_advances_or_triggers_offer() {
    let mut ds = vec![talk_dialogue()];
    let actors = vec![
        DialogueActor { collider_dialogue: None },
        DialogueActor {
            collider_dialogue: Some(DialogueSpec {
                node_name: "Hi".to_string(),
                ui_type: DialogueUiType::MovementDisabled,
                auto_display: false,
            }),
        },
    ];
    let mut g = game(None);
    let ev = handle_accept(0, &mut ds, &actors, &mut g);
    assert!(matches!(&ev[0], DialogueEvent::Text(t) if t == "hello"));
    assert_eq!(g.dialogue_ui, Some(DialogueUiType::MovementDisabled));
    let ev = handle_accept(0, &mut ds, &actors, &mut g);
    assert!(matches!(ev[0], DialogueEvent::End));
    assert!(!ds[0].in_progress());
}

#[test]
fn sprite_timer_and_frames() {
    let mut s = AnimatedSprite::with_frame_millis(100);
    assert!(!s.tick(60));
    assert!(s.tick(60));
    assert_eq!(s.elapsed_millis, 20);
    s.animation_index = 3;
    s.reset();
    assert_eq!(s.animation_index, 0);
    assert_eq!(next_frame(None, 4, false, 5), (0, 0));
    let mut c = Character::default();
    c.direction = Direction::East;
    c.set_state(CharacterState::Walking);
    assert!(wants_step_frame(&c));
    assert_eq!(next_frame(Some(&c), 0, true, 64), (2, 26));
    c.set_state(CharacterState::Running);
    c.set_state(CharacterState::Running);
    assert!(!wants_step_frame(&c));
    c.collision.insert_behavior(ColliderBehavior::Obstruct);
    assert!(wants_step_frame(&c));
    assert_eq!(next_frame(Some(&c), 3, false, 30), (0, 28 % 30));
}
