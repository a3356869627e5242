use adventure_core::behavior::ColliderBehavior;
use adventure_core::character::{Character, CharacterState, Direction};
use adventure_core::collider::Collider;
use adventure_core::dialogue::{Dialogue, DialogueAsset, DialogueEvent, DialogueNode, DialoguePlaceholder, NodeBody};
use adventure_core::game::{DialogueSpec, DialogueUiType, Game};
use adventure_core::items::{dispatch_interactions, DialogueActor, Inventory, WorldAction};
use adventure_core::motion::{Body, ItemInteraction};
use adventure_core::scene::{object_behaviors, PropertyValue};

fn body(entity: u64, behaviors: Vec<ColliderBehavior>) -> Body {
    Body {
        entity,
        name: "thing".to_string(),
        scene: 1,
        visible: true,
        x: 0,
        y: 0,
        z: 0,
        collider: Collider::new(behaviors, 1, 1, 0, 0),
    }
}

fn game() -> Game {
    Game { start_dialogue_shown: false, dialogue_ui: None, current_dialogue: None, current_map: 1 }
}

fn spec(name: &str, ui: DialogueUiType, auto: bool) -> DialogueSpec {
    DialogueSpec { node_name: name.to_string(), ui_type: ui, auto_display: auto }
}

fn removals(actions: &[WorldAction]) -> Vec<u64> {
    actions
        .iter()
        .filter_map(|a| match a {
            WorldAction::Remove(e) => Some(*e),
            _ => None,
        })
        .collect()
}

#[test]
fn collect_removes_once_per_frame() {
    let mut world = vec![body(7, vec![ColliderBehavior::Collect]), body(7, vec![ColliderBehavior::Collect])];
    let interactions = vec![
        ItemInteraction::new(1, 7, vec![ColliderBehavior::Collect]),
        ItemInteraction::new(1, 7, vec![ColliderBehavior::Collect]),
    ];
    let mut actor = DialogueActor::default();
    let mut ds: Vec<Dialogue> = vec![];
    let mut g = game();
    let (actions, events) = dispatch_interactions(&interactions, &mut world, &mut actor, &mut ds, &mut g);
    assert_eq!(removals(&actions), vec![7]);
    assert!(events.is_empty());
    assert!(!world[0].collider.has_behavior(&ColliderBehavior::Collect));
    assert!(!world[1].collider.has_behavior(&ColliderBehavior::Collect));
}

#[test]
fn two_items_are_both_collected() {
    let mut world = vec![body(7, vec![ColliderBehavior::Collect]), body(8, vec![ColliderBehavior::Collect])];
    let interactions = vec![
        ItemInteraction::new(1, 7, vec![ColliderBehavior::Collect]),
        ItemInteraction::new(1, 8, vec![ColliderBehavior::Collect]),
    ];
    let mut actor = DialogueActor::default();
    let mut ds: Vec<Dialogue> = vec![];
    let mut g = game();
    let (actions, _) = dispatch_interactions(&interactions, &mut world, &mut actor, &mut ds, &mut g);
    assert_eq!(removals(&actions), vec![7, 8]);
}

#[test]
fn load_script_and_offered_dialogue() {
    let mut world = vec![body(3, vec![])];
    let interactions = vec![ItemInteraction::new(
        1,
        3,
        vec![
            ColliderBehavior::Obstruct,
            ColliderBehavior::Load { path: "cave".to_string() },
            ColliderBehavior::Script("boom".to_string()),
            ColliderBehavior::Dialogue(spec("Sign", DialogueUiType::MovementDisabled, false)),
        ],
    )];
    let mut actor = DialogueActor::default();
    let mut ds: Vec<Dialogue> = vec![];
    let mut g = game();
    let (actions, events) = dispatch_interactions(&interactions, &mut world, &mut actor, &mut ds, &mut g);
    assert_eq!(actions.len(), 2);
    assert!(matches!(&actions[0], WorldAction::LoadScene(p) if p == "cave"));
    assert!(matches!(&actions[1], WorldAction::RunScript(c) if c == "boom"));
    assert!(events.is_empty());
    assert_eq!(actor.collider_dialogue, Some(spec("Sign", DialogueUiType::MovementDisabled, false)));
    assert_eq!(g.dialogue_ui, None);
}

#[test]
fn auto_display_dialogue_starts_at_once() {
    let asset = DialogueAsset {
        name: "d".to_string(),
        nodes: vec![DialogueNode { name: "Note".to_string(), body: NodeBody::Text("Look!".to_string()), next: None }],
    };
    let mut ds = vec![Dialogue::new(&DialoguePlaceholder::default(), asset)];
    let mut world = vec![body(3, vec![])];
    let interactions = vec![ItemInteraction::new(
        1,
        3,
        vec![ColliderBehavior::Dialogue(spec("Note", DialogueUiType::Notice, true))],
    )];
    let mut actor = DialogueActor::default();
    let mut g = game();
    let (actions, events) = dispatch_interactions(&interactions, &mut world, &mut actor, &mut ds, &mut g);
    assert!(actions.is_empty());
    assert_eq!(events.len(), 1);
    assert!(matches!(&events[0], DialogueEvent::Text(t) if t == "Look!"));
    assert_eq!(g.dialogue_ui, Some(DialogueUiType::Notice));
    assert!(actor.collider_dialogue.is_none());
    let missing = vec![ItemInteraction::new(1, 3, vec![ColliderBehavior::Dialogue(spec("Gone", DialogueUiType::MovementDisabled, true))])];
    let (_, events) = dispatch_interactions(&missing, &mut world, &mut actor, &mut ds, &mut g);
    assert!(events.is_empty());
    assert_eq!(g.dialogue_ui, Some(DialogueUiType::Notice));
}

fn props(list: &[(&str, PropertyValue)]) -> Vec<(String, PropertyValue)> {
    list.iter().map(|(k, v)| (k.to_string(), v.clone())).collect()
}

#[test]
fn scene_objects_get_their_behaviors() {
    let none = props(&[]);
    assert_eq!(object_behaviors("gem", true, false, false, &none), vec![ColliderBehavior::Collect]);
    assert!(object_behaviors("gem", false, false, false, &none).is_empty());
    assert!(object_behaviors("spawn", true, true, false, &none).is_empty());
    assert_eq!(
        object_behaviors("load:forest", true, false, false, &none),
        vec![ColliderBehavior::Load { path: "forest".to_string() }]
    );
    assert!(object_behaviors("load:forest", false, false, false, &none).is_empty());
    assert_eq!(object_behaviors("rock", true, true, true, &none), vec![ColliderBehavior::Obstruct]);
    assert_eq!(object_behaviors("tree", true, false, false, &none), vec![ColliderBehavior::Obstruct]);
    assert!(object_behaviors("house", true, false, true, &none).is_empty());
    let talk = props(&[("dialogue", PropertyValue::StringValue("Hello".to_string()))]);
    assert_eq!(
        object_behaviors("trigger", true, true, false, &talk),
        vec![ColliderBehavior::Dialogue(spec("Hello", DialogueUiType::MovementDisabled, false))]
    );
    let notice = props(&[
        ("notice", PropertyValue::StringValue("Sign".to_string())),
        ("autodisplay", PropertyValue::BoolValue(false)),
        ("color", PropertyValue::Other),
    ]);
    assert_eq!(
        object_behaviors("trigger", true, true, false, &notice),
        vec![ColliderBehavior::Dialogue(spec("Sign", DialogueUiType::Notice, false))]
    );
    let wrong_type = props(&[("dialogue", PropertyValue::BoolValue(true))]);
    assert!(object_behaviors("spawn", true, true, false, &wrong_type).is_empty());
}

#[test]
fn character_state_tracking() {
    let mut c = Character::default();
    assert_eq!(c.direction, Direction::South);
    assert_eq!(c.state(), CharacterState::Idle);
    assert!(!c.is_stepping());
    c.set_state(CharacterState::Running);
    assert!(c.is_stepping());
    assert_eq!(c.previous_state(), CharacterState::Idle);
    assert!(!c.did_just_become_idle());
    c.set_state(CharacterState::Idle);
    assert!(c.did_just_become_idle());
    c.set_state(CharacterState::Idle);
    assert!(!c.did_just_become_idle());
    assert!(CharacterState::Walking.is_stepping());
    assert_eq!(Inventory::default().num_gems, 0);
}

#[test]
fn inventory_counts_each_removal_once() {
    let mut world = vec![body(7, vec![ColliderBehavior::Collect]), body(9, vec![ColliderBehavior::Collect])];
    let interactions = vec![
        ItemInteraction::new(1, 7, vec![ColliderBehavior::Collect]),
        ItemInteraction::new(1, 7, vec![ColliderBehavior::Collect, ColliderBehavior::Script("s".to_string())]),
        ItemInteraction::new(1, 9, vec![ColliderBehavior::Collect]),
    ];
    let mut actor = DialogueActor::default();
    let mut ds: Vec<Dialogue> = vec![];
    let mut g = game();
    let (actions, _) = dispatch_interactions(&interactions, &mut world, &mut actor, &mut ds, &mut g);
    let mut inv = Inventory::default();
    inv.credit(&actions);
    assert_eq!(inv.num_gems, 2);
    let mut full = Inventory { num_gems: u32::MAX };
    full.credit(&actions);
    assert_eq!(full.num_gems, u32::MAX);
}
