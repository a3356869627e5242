use adventure_core::behavior::ColliderBehavior;
use adventure_core::collider::Collider;
use adventure_core::dialogue::{Dialogue, DialogueAsset, DialogueEvent, DialogueNode, DialoguePlaceholder, NodeBody};
use adventure_core::game::{process_script_commands, DialogueUiType, Game};
use adventure_core::motion::Body;
use adventure_core::script::{CommandQueue, ScriptCommand, ScriptCore};
use adventure_core::state::AppState;

fn body(entity: u64, name: &str) -> Body {
    Body {
        entity,
        name: name.to_string(),
        scene: 1,
        visible: false,
        x: 0,
        y: 0,
        z: 0,
        collider: Collider::new(vec![], 1, 1, 0, 0),
    }
}

fn names(cs: &[ScriptCommand]) -> Vec<String> {
    cs.iter()
        .map(|c| match c {
            ScriptCommand::SetVisible(n, v) => format!("visible {} {}", n, v),
            ScriptCommand::SetCollectable(n, v) => format!("collectable {} {}", n, v),
            ScriptCommand::StartDialogueIfExists(n) => format!("dialogue {}", n),
            ScriptCommand::PlaySound(p) => format!("sound {}", p),
        })
        .collect()
}

#[test]
fn drain_returns_appends_in_order_then_nothing() {
    let mut q = CommandQueue::new();
    q.set_visible("door", true);
    q.start_dialogue("Intro");
    q.play_sound("sfx/ding.ogg");
    q.set_collectable("gem", true);
    assert_eq!(q.len(), 4);
    let first = q.drain();
    assert_eq!(
        names(&first),
        vec!["visible door true", "dialogue Intro", "sound sfx/ding.ogg", "collectable gem true"]
    );
    assert_eq!(q.len(), 0);
    assert!(q.drain().is_empty());
}

#[test]
fn property_map_becomes_commands() {
    let mut q = CommandQueue::new();
    let props = vec![
        ("visible".to_string(), false),
        ("collectable".to_string(), true),
        ("dialogue".to_string(), true),
        ("collectable".to_string(), false),
    ];
    q.update_map_objects_by_name("chest", &props);
    assert_eq!(names(&q.drain()), vec!["visible chest false", "collectable chest true"]);
}

#[test]
fn commands_apply_to_world_and_dialogues() {
    let mut q = CommandQueue::new();
    q.set_visible("door", true);
    q.set_collectable("gem", true);
    q.start_dialogue("Hi");
    q.start_dialogue("Nope");
    q.play_sound("a.ogg");
    let mut world = vec![body(1, "door"), body(2, "gem"), body(3, "door"), body(4, "rock")];
    let asset = DialogueAsset {
        name: "d".to_string(),
        nodes: vec![DialogueNode { name: "Hi".to_string(), body: NodeBody::Text("hey".to_string()), next: None }],
    };
    let mut ds = vec![Dialogue::new(&DialoguePlaceholder::default(), asset)];
    let (sounds, events) = process_script_commands(&mut q, &mut world, &mut ds);
    assert!(world[0].visible && world[2].visible);
    assert!(!world[1].visible && !world[3].visible);
    assert!(world[1].collider.has_behavior(&ColliderBehavior::Collect));
    assert!(!world[3].collider.has_behavior(&ColliderBehavior::Collect));
    assert_eq!(sounds, vec!["a.ogg".to_string()]);
    assert_eq!(events.len(), 1);
    assert!(matches!(&events[0], DialogueEvent::Text(t) if t == "hey"));
    assert!(ds[0].in_progress());
    assert_eq!(q.len(), 0);
}

#[test]
fn game_knows_when_movement_is_stopped() {
    let mut g = Game { start_dialogue_shown: false, dialogue_ui: None, current_dialogue: None, current_map: 0 };
    assert!(!g.is_in_dialogue());
    g.dialogue_ui = Some(DialogueUiType::Notice);
    assert!(!g.is_in_dialogue());
    g.dialogue_ui = Some(DialogueUiType::MovementDisabled);
    assert!(g.is_in_dialogue());
}

#[test]
fn defaults() {
    assert_eq!(AppState::default(), AppState::Loading);
    assert_eq!(DialogueUiType::default(), DialogueUiType::MovementDisabled);
    let _core = ScriptCore::default();
}
