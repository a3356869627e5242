use adventure_core::dialogue::{
    begin_everywhere, find_node, run_nodes, Choice, Dialogue, DialogueAsset, DialogueEvent,
    DialogueNode, DialoguePlaceholder, NodeBody, RunEnd,
};

fn node(name: &str, body: NodeBody) -> DialogueNode {
    DialogueNode { name: name.to_string(), body, next: None }
}

fn asset(nodes: Vec<DialogueNode>) -> DialogueAsset {
    DialogueAsset { name: "test".to_string(), nodes }
}

fn dialogue(nodes: Vec<DialogueNode>) -> Dialogue {
    let a = asset(nodes);
    assert!(a.validate());
    Dialogue::new(&DialoguePlaceholder::default(), a)
}

fn text(e: &DialogueEvent) -> Option<String> {
    match e {
        DialogueEvent::Text(s) => Some(s.clone()),
        _ => None,
    }
}

fn greeting() -> Vec<DialogueNode> {
    vec![
        node("Start", NodeBody::GoTo("Greet".to_string())),
        node("Greet", NodeBody::Text("Hello".to_string())),
        node("", NodeBody::End),
    ]
}

#[test]
fn goto_text_end_walkthrough() {
    let mut d = dialogue(greeting());
    assert!(!d.in_progress());
    let ev = d.begin("Start");
    assert_eq!(ev.len(), 1);
    assert_eq!(text(&ev[0]), Some("Hello".to_string()));
    assert!(d.in_progress());
    assert_eq!(d.current_index, 1);
    let ev = d.advance();
    assert_eq!(ev.len(), 1);
    assert!(matches!(ev[0], DialogueEvent::End));
    assert!(!d.in_progress());
    let ev = d.advance();
    assert!(ev.is_empty());
    assert!(!d.in_progress());
    assert_eq!(d.current_index, 2);
}

#[test]
fn begin_optional_missing_changes_nothing() {
    let mut d = dialogue(greeting());
    d.begin("Greet");
    let (idx, next, name, end) = (d.current_index, d.next_index, d.next_node_name.clone(), d.is_end);
    let (ok, ev) = d.begin_optional("missing");
    assert!(!ok);
    assert!(ev.is_empty());
    assert_eq!(d.current_index, idx);
    assert_eq!(d.next_index, next);
    assert_eq!(d.next_node_name, name);
    assert_eq!(d.is_end, end);
}

#[test]
fn begin_optional_present_begins() {
    let mut d = dialogue(greeting());
    let (ok, ev) = d.begin_optional("Greet");
    assert!(ok);
    assert_eq!(text(&ev[0]), Some("Hello".to_string()));
}

#[test]
fn script_nodes_run_without_pausing() {
    let mut d = dialogue(vec![
        node("A", NodeBody::Script("x = 1".to_string())),
        node("", NodeBody::Script("y = 2".to_string())),
        node("", NodeBody::Text("after".to_string())),
    ]);
    let ev = d.begin("A");
    assert_eq!(ev.len(), 3);
    assert!(matches!(&ev[0], DialogueEvent::Script(c) if c == "x = 1"));
    assert!(matches!(&ev[1], DialogueEvent::Script(c) if c == "y = 2"));
    assert_eq!(text(&ev[2]), Some("after".to_string()));
    assert_eq!(d.current_index, 2);
}

#[test]
fn running_past_the_last_node_ends_silently() {
    let mut d = dialogue(vec![node("A", NodeBody::Text("only".to_string()))]);
    d.begin("A");
    let ev = d.advance();
    assert!(ev.is_empty());
    assert!(!d.in_progress());
}

#[test]
fn first_name_wins_on_duplicates() {
    let nodes = vec![
        node("Same", NodeBody::Text("first".to_string())),
        node("Same", NodeBody::Text("second".to_string())),
    ];
    assert_eq!(find_node(&nodes, &"Same".to_string()), Some(0));
    assert_eq!(find_node(&nodes, &"".to_string()), None);
    let mut d = dialogue(nodes);
    let ev = d.begin("Same");
    assert_eq!(text(&ev[0]), Some("first".to_string()));
}

#[test]
fn faulty_content_is_rejected() {
    let branch = asset(vec![node(
        "B",
        NodeBody::Branch(vec![Choice { text: "t".to_string(), next: "B".to_string() }]),
    )]);
    assert!(!branch.validate());
    let dangling = asset(vec![node("G", NodeBody::GoTo("nowhere".to_string()))]);
    assert!(!dangling.validate());
    let silent_loop = asset(vec![
        node("L", NodeBody::Script("tick".to_string())),
        node("", NodeBody::GoTo("L".to_string())),
    ]);
    assert!(!silent_loop.validate());
    assert_eq!(run_nodes(&silent_loop.nodes, 0).2, RunEnd::Fault);
    assert!(asset(greeting()).validate());
    assert!(asset(vec![]).validate());
}

#[test]
fn begin_everywhere_starts_only_where_present() {
    let mut ds = vec![
        dialogue(greeting()),
        dialogue(vec![node("Other", NodeBody::Text("x".to_string()))]),
        dialogue(vec![node("Greet", NodeBody::Text("Hi there".to_string()))]),
    ];
    let (began, ev) = begin_everywhere(&mut ds, "Greet");
    assert!(began);
    assert_eq!(ev.len(), 2);
    assert_eq!(text(&ev[0]), Some("Hello".to_string()));
    assert_eq!(text(&ev[1]), Some("Hi there".to_string()));
    assert!(ds[0].in_progress());
    assert!(!ds[1].in_progress());
    let (began, ev) = begin_everywhere(&mut ds, "absent");
    assert!(!began);
    assert!(ev.is_empty());
}

#[test]
fn placeholder_state_carries_over() {
    let p = DialoguePlaceholder {
        current_index: 1,
        next_index: Some(0),
        next_node_name: None,
        is_end: false,
    };
    let mut d = Dialogue::new(&p, asset(greeting()));
    assert!(d.has_node("Start"));
    assert!(!d.has_node("start"));
    let ev = d.advance();
    assert_eq!(text(&ev[0]), Some("Hello".to_string()));
    assert_eq!(d.next_index, None);
}
