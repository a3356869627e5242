use vstd::prelude::*;

verus! {

/// One answer of a choice node.
#[derive(Debug, Clone)]
pub struct Choice {
    pub text: String,
    pub next: String,
}

/// What a dialogue node does when it is reached.
#[derive(Debug, Clone)]
pub enum NodeBody {
    /// A choice for the player; no executor handles it.
    Branch(Vec<Choice>),
    /// Ends the dialogue.
    End,
    /// Goes on at the node of that name.
    GoTo(String),
    /// Script code to evaluate before going on with the next node.
    Script(String),
    /// Text to show; the dialogue waits for the player.
    Text(String),
}

/// A node of a dialogue: an optional name (empty for none), a body and an
/// optional successor that the content may give.
#[derive(Debug, Clone)]
pub struct DialogueNode {
    pub name: String,
    pub body: NodeBody,
    pub next: Option<String>,
}

/// Dialogue content: a name and an ordered sequence of nodes.
#[derive(Debug, Clone)]
pub struct DialogueAsset {
    pub name: String,
    pub nodes: Vec<DialogueNode>,
}

/// What a running dialogue hands to the host, in order.
#[derive(Debug, Clone)]
pub enum DialogueEvent {
    /// The dialogue has ended.
    End,
    /// Text to show.
    Text(String),
    /// Script code to evaluate now, against the dialogue's interpreter.
    Script(String),
}

/// A `DialogueEvent` with its text as characters.
pub enum DialogueEventView {
    End,
    Text(Seq<char>),
    Script(Seq<char>),
}

impl View for DialogueEvent {
    type V = DialogueEventView;

    open spec fn view(&self) -> DialogueEventView {
        match self {
            DialogueEvent::End => DialogueEventView::End,
            DialogueEvent::Text(s) => DialogueEventView::Text(s@),
            DialogueEvent::Script(s) => DialogueEventView::Script(s@),
        }
    }
}

pub open spec fn event_views(s: Seq<DialogueEvent>) -> Seq<DialogueEventView> {
    s.map_values(|e: DialogueEvent| e@)
}

/// The first of the first `n` nodes that carries `name`; nodes without a
/// name are never found.
pub open spec fn lookup_in(nodes: Seq<DialogueNode>, name: Seq<char>, n: int) -> Option<int>
    decreases n,
{
    if n <= 0 {
        None
    } else {
        match lookup_in(nodes, name, n - 1) {
            Some(i) => Some(i),
            None => if name.len() > 0 && nodes[n - 1].name@ == name {
                Some(n - 1)
            } else {
                None
            },
        }
    }
}

/// The node that a name stands for: the first that carries it.
pub open spec fn lookup(nodes: Seq<DialogueNode>, name: Seq<char>) -> Option<int> {
    lookup_in(nodes, name, nodes.len() as int)
}

/// How a run of the dialogue stops.
#[derive(Debug, Copy, Clone, PartialEq, Eq, Structural)]
pub enum RunEnd {
    /// At a text node, waiting for the player.
    Waiting,
    /// At an end node, or past the last node.
    Ended,
    /// At a branch node, a name that no node carries, or in a loop of nodes
    /// that never waits.
    Fault,
}

/// Runs the nodes from `idx` with at most `fuel` silent steps: the node
/// where the run stops, the events on the way, and how it stops.
pub open spec fn run(nodes: Seq<DialogueNode>, idx: int, fuel: nat) -> (int, Seq<DialogueEventView>, RunEnd)
    decreases fuel,
{
    if idx < 0 || idx >= nodes.len() {
        (idx, Seq::empty(), RunEnd::Ended)
    } else if fuel == 0 {
        (idx, Seq::empty(), RunEnd::Fault)
    } else {
        match nodes[idx].body {
            NodeBody::Text(s) => (idx, seq![DialogueEventView::Text(s@)], RunEnd::Waiting),
            NodeBody::End => (idx, seq![DialogueEventView::End], RunEnd::Ended),
            NodeBody::GoTo(name) => match lookup(nodes, name@) {
                Some(j) => run(nodes, j, (fuel - 1) as nat),
                None => (idx, Seq::empty(), RunEnd::Fault),
            },
            NodeBody::Script(code) => {
                let rest = run(nodes, idx + 1, (fuel - 1) as nat);
                (rest.0, seq![DialogueEventView::Script(code@)] + rest.1, rest.2)
            },
            NodeBody::Branch(_) => (idx, Seq::empty(), RunEnd::Fault),
        }
    }
}

/// The run from a node, with as many silent steps as there are nodes: a
/// run that takes more visits a node twice and never waits.
pub open spec fn run_from(nodes: Seq<DialogueNode>, idx: int) -> (int, Seq<DialogueEventView>, RunEnd) {
    run(nodes, idx, nodes.len() as nat)
}

/// Finds the first node of the first `nodes.len()` that carries `name`.
pub fn find_node(nodes: &Vec<DialogueNode>, name: &String) -> (r: Option<usize>)
    ensures
        match r {
            Some(i) => lookup(nodes@, name@) == Some(i as int),
            None => lookup(nodes@, name@) is None,
        },
{
    if name.as_str().is_empty() {
        assert(lookup_in(nodes@, name@, nodes@.len() as int) is None) by {
            lemma_lookup_empty_name(nodes@, name@, nodes@.len() as int);
        }
        return None;
    }
    let mut i: usize = 0;
    while i < nodes.len()
        invariant
            i <= nodes@.len(),
            name@.len() > 0,
            lookup_in(nodes@, name@, i as int) is None,
        decreases nodes@.len() - i,
    {
        if nodes[i].name == *name {
            proof {
                lemma_lookup_stable(nodes@, name@, i + 1, nodes@.len() as int);
            }
            return Some(i);
        }
        i = i + 1;
    }
    None
}

proof fn lemma_lookup_empty_name(nodes: Seq<DialogueNode>, name: Seq<char>, n: int)
    requires
        name.len() == 0,
    ensures
        lookup_in(nodes, name, n) is None,
    decreases n,
{
    if n > 0 {
        lemma_lookup_empty_name(nodes, name, n - 1);
    }
}

/// Once a name is found among the first `n` nodes, more nodes do not change
/// the answer.
proof fn lemma_lookup_stable(nodes: Seq<DialogueNode>, name: Seq<char>, n: int, m: int)
    requires
        0 <= n <= m,
        lookup_in(nodes, name, n) is Some,
    ensures
        lookup_in(nodes, name, m) == lookup_in(nodes, name, n),
    decreases m - n,
{
    if m > n {
        lemma_lookup_stable(nodes, name, n, m - 1);
    }
}

impl DialogueAsset {
    /// The content never faults: from no node does a run reach a branch, a
    /// name that no node carries, or a loop that never waits.
    pub open spec fn wf(&self) -> bool {
        forall|i: int| 0 <= i < self.nodes@.len() ==> !(#[trigger] run_from(self.nodes@, i).2 is Fault)
    }

    pub open spec fn spec_has_node(&self, name: Seq<char>) -> bool {
        lookup(self.nodes@, name) is Some
    }

    /// Whether the content never faults (see `wf`); content that does is
    /// a defect to report when it is loaded.
    pub fn validate(&self) -> (r: bool)
        ensures
            r == self.wf(),
    {
        let mut i: usize = 0;
        while i < self.nodes.len()
            invariant
                i <= self.nodes@.len(),
                forall|k: int| 0 <= k < i ==> !(#[trigger] run_from(self.nodes@, k).2 is Fault),
            decreases self.nodes@.len() - i,
        {
            let (_, _, stop) = run_nodes(&self.nodes, i);
            if stop == RunEnd::Fault {
                return false;
            }
            i = i + 1;
        }
        true
    }

    /// Whether a node carries `name`.
    pub fn has_node(&self, name: &str) -> (r: bool)
        ensures
            r == self.spec_has_node(name@),
    {
        let key: String = name.to_owned();
        find_node(&self.nodes, &key).is_some()
    }
}

/// Runs the nodes from `start` until the dialogue waits or ends.
pub fn run_nodes(nodes: &Vec<DialogueNode>, start: usize) -> (r: (usize, Vec<DialogueEvent>, RunEnd))
    ensures
        r.0 == run_from(nodes@, start as int).0,
        event_views(r.1@) == run_from(nodes@, start as int).1,
        r.2 == run_from(nodes@, start as int).2,
{
    let ghost total = run_from(nodes@, start as int);
    let n = nodes.len();
    let mut cur: usize = start;
    let mut fuel: usize = n;
    let mut events: Vec<DialogueEvent> = Vec::new();
    assert(event_views(events@) + total.1 =~= total.1);
    loop
        invariant
            n == nodes@.len(),
            fuel <= n,
            total == run_from(nodes@, start as int),
            total.0 == run(nodes@, cur as int, fuel as nat).0,
            total.1 == event_views(events@) + run(nodes@, cur as int, fuel as nat).1,
            total.2 == run(nodes@, cur as int, fuel as nat).2,
        decreases fuel,
    {
        let ghost before = event_views(events@);
        if cur >= n {
            assert(before + Seq::<DialogueEventView>::empty() =~= before);
            return (cur, events, RunEnd::Ended);
        }
        if fuel == 0 {
            assert(before + Seq::<DialogueEventView>::empty() =~= before);
            return (cur, events, RunEnd::Fault);
        }
        match &nodes[cur].body {
            NodeBody::Text(text) => {
                events.push(DialogueEvent::Text(text.clone()));
                assert(event_views(events@) =~= before + seq![DialogueEventView::Text(text@)]);
                return (cur, events, RunEnd::Waiting);
            },
            NodeBody::End => {
                events.push(DialogueEvent::End);
                assert(event_views(events@) =~= before + seq![DialogueEventView::End]);
                return (cur, events, RunEnd::Ended);
            },
            NodeBody::GoTo(name) => {
                match find_node(nodes, name) {
                    Some(j) => {
                        cur = j;
                        fuel = fuel - 1;
                    },
                    None => {
                        assert(before + Seq::<DialogueEventView>::empty() =~= before);
                        return (cur, events, RunEnd::Fault);
                    },
                }
            },
            NodeBody::Script(code) => {
                let ghost rest = run(nodes@, cur + 1, (fuel - 1) as nat);
                events.push(DialogueEvent::Script(code.clone()));
                assert(event_views(events@) =~= before.push(DialogueEventView::Script(code@)));
                assert(before + (seq![DialogueEventView::Script(code@)] + rest.1) =~= before.push(
                    DialogueEventView::Script(code@),
                ) + rest.1);
                cur = cur + 1;
                fuel = fuel - 1;
            },
            NodeBody::Branch(_) => {
                assert(before + Seq::<DialogueEventView>::empty() =~= before);
                return (cur, events, RunEnd::Fault);
            },
        }
    }
}

/// The observable state of a running dialogue: the current node, an
/// optional next node, an optional pending name, and whether it has ended.
pub struct DialogueState {
    pub current: int,
    pub next_index: Option<int>,
    pub pending: Option<Seq<char>>,
    pub ended: bool,
}

/// The successor of a node index, which stays put at the largest index.
pub open spec fn saturating_next(i: int) -> int {
    if i < usize::MAX {
        i + 1
    } else {
        i
    }
}

/// Executes a dialogue in state `s`: resolves a pending name, then runs
/// until the dialogue waits or ends.
pub open spec fn execute_spec(nodes: Seq<DialogueNode>, s: DialogueState) -> (DialogueState, Seq<DialogueEventView>) {
    if s.ended {
        (s, Seq::empty())
    } else {
        let start = match s.pending {
            Some(name) => lookup(nodes, name).unwrap(),
            None => s.current,
        };
        let next = match s.pending {
            Some(_) => None,
            None => s.next_index,
        };
        let r = run_from(nodes, start);
        (
            DialogueState {
                current: r.0,
                next_index: if r.2 is Ended {
                    None
                } else {
                    next
                },
                pending: None,
                ended: r.2 is Ended,
            },
            r.1,
        )
    }
}

/// `begin(name)`: the name becomes pending, the dialogue is no longer
/// ended, and it executes.
pub open spec fn begin_spec(nodes: Seq<DialogueNode>, s: DialogueState, name: Seq<char>) -> (DialogueState, Seq<DialogueEventView>) {
    execute_spec(nodes, DialogueState { pending: Some(name), ended: false, ..s })
}

/// `advance()`: nothing once ended; otherwise the next node is the one
/// recorded, or the one after the current, and the dialogue executes.
pub open spec fn advance_spec(nodes: Seq<DialogueNode>, s: DialogueState) -> (DialogueState, Seq<DialogueEventView>) {
    if s.ended {
        (s, Seq::empty())
    } else {
        let current = match s.next_index {
            Some(i) => i,
            None => saturating_next(s.current),
        };
        execute_spec(nodes, DialogueState { current, next_index: None, ..s })
    }
}

pub open spec fn name_view(n: Option<String>) -> Option<Seq<char>> {
    match n {
        Some(s) => Some(s@),
        None => None,
    }
}

/// The state of a dialogue before its content is loaded.
#[derive(Debug)]
pub struct DialoguePlaceholder {
    pub current_index: usize,
    pub next_index: Option<usize>,
    pub next_node_name: Option<String>,
    pub is_end: bool,
}

impl Default for DialoguePlaceholder {
    fn default() -> (r: DialoguePlaceholder)
        ensures
            r.current_index == 0,
            r.next_index is None,
            r.next_node_name is None,
            r.is_end,
    {
        DialoguePlaceholder { current_index: 0, next_index: None, next_node_name: None, is_end: true }
    }
}

/// A running dialogue over loaded content.
#[derive(Debug)]
pub struct Dialogue {
    pub asset: DialogueAsset,
    pub current_index: usize,
    pub next_index: Option<usize>,
    pub next_node_name: Option<String>,
    pub is_end: bool,
}

impl Dialogue {
    pub open spec fn state(&self) -> DialogueState {
        DialogueState {
            current: self.current_index as int,
            next_index: match self.next_index {
                Some(i) => Some(i as int),
                None => None,
            },
            pending: name_view(self.next_node_name),
            ended: self.is_end,
        }
    }

    /// The content never faults, and a pending name is carried by a node.
    pub open spec fn wf(&self) -> bool {
        &&& self.asset.wf()
        &&& self.next_node_name matches Some(n) ==> self.asset.spec_has_node(n@)
    }

    /// A dialogue over `asset` in the state that the placeholder holds.
    pub fn new(placeholder: &DialoguePlaceholder, asset: DialogueAsset) -> (r: Dialogue)
        ensures
            r.asset == asset,
            r.current_index == placeholder.current_index,
            r.next_index == placeholder.next_index,
            name_view(r.next_node_name) == name_view(placeholder.next_node_name),
            r.is_end == placeholder.is_end,
    {
        let next_node_name = match &placeholder.next_node_name {
            Some(n) => Some(n.clone()),
            None => None,
        };
        Dialogue {
            asset,
            current_index: placeholder.current_index,
            next_index: placeholder.next_index,
            next_node_name,
            is_end: placeholder.is_end,
        }
    }

    pub fn in_progress(&self) -> (r: bool)
        ensures
            r == !self.is_end,
    {
        !self.is_end
    }

    /// Whether a node of the content carries `name`.
    pub fn has_node(&self, name: &str) -> (r: bool)
        ensures
            r == self.asset.spec_has_node(name@),
    {
        self.asset.has_node(name)
    }

    fn execute(&mut self) -> (r: Vec<DialogueEvent>)
        requires
            old(self).wf(),
        ensures
            final(self).wf(),
            final(self).asset == old(self).asset,
            (final(self).state(), event_views(r@)) == execute_spec(old(self).asset.nodes@, old(self).state()),
    {
        if self.is_end {
            assert(event_views(Seq::<DialogueEvent>::empty()) =~= Seq::<DialogueEventView>::empty());
            return Vec::new();
        }
        let start: usize = match &self.next_node_name {
            Some(name) => {
                match find_node(&self.asset.nodes, name) {
                    Some(i) => {
                        self.next_index = None;
                        i
                    },
                    None => self.current_index,
                }
            },
            None => self.current_index,
        };
        self.next_node_name = None;
        proof {
            let nodes = self.asset.nodes@;
            if start < nodes.len() {
                assert(!(run_from(nodes, start as int).2 is Fault));
            }
        }
        let (index, events, stop) = run_nodes(&self.asset.nodes, start);
        self.current_index = index;
        if stop == RunEnd::Ended {
            self.is_end = true;
            self.next_index = None;
        }
        events
    }

    /// Starts the dialogue at the node that carries `name`.
    pub fn begin(&mut self, node_name: &str) -> (r: Vec<DialogueEvent>)
        requires
            old(self).wf(),
            old(self).asset.spec_has_node(node_name@),
        ensures
            final(self).wf(),
            final(self).asset == old(self).asset,
            (final(self).state(), event_views(r@)) == begin_spec(old(self).asset.nodes@, old(self).state(), node_name@),
    {
        self.next_node_name = Some(node_name.to_owned());
        self.is_end = false;
        self.execute()
    }

    /// Starts the dialogue at the node that carries `name`, if one does;
    /// otherwise changes nothing and returns false.
    pub fn begin_optional(&mut self, node_name: &str) -> (r: (bool, Vec<DialogueEvent>))
        requires
            old(self).wf(),
        ensures
            final(self).wf(),
            r.0 == old(self).asset.spec_has_node(node_name@),
            !r.0 ==> *final(self) == *old(self) && r.1@.len() == 0,
            r.0 ==> final(self).asset == old(self).asset && (final(self).state(), event_views(r.1@)) == begin_spec(old(self).asset.nodes@, old(self).state(), node_name@),
    {
        if !self.has_node(node_name) {
            return (false, Vec::new());
        }
        let events = self.begin(node_name);
        (true, events)
    }

    /// Moves the dialogue on when the player dismisses what it shows.
    pub fn advance(&mut self) -> (r: Vec<DialogueEvent>)
        requires
            old(self).wf(),
        ensures
            final(self).wf(),
            final(self).asset == old(self).asset,
            (final(self).state(), event_views(r@)) == advance_spec(old(self).asset.nodes@, old(self).state()),
    {
        if self.is_end {
            assert(event_views(Seq::<DialogueEvent>::empty()) =~= Seq::<DialogueEventView>::empty());
            return Vec::new();
        }
        self.current_index = match self.next_index {
            Some(i) => i,
            None => if self.current_index < usize::MAX {
                self.current_index + 1
            } else {
                self.current_index
            },
        };
        self.next_index = None;
        self.execute()
    }
}

/// Starting the node `name` on every dialogue that has it, in order, where
/// `assets[k]` and `states[k]` are the nodes and the state of dialogue `k`:
/// the new states, the events one after the other, and whether any
/// dialogue began.
pub open spec fn begin_all(assets: Seq<Seq<DialogueNode>>, states: Seq<DialogueState>, name: Seq<char>) -> (Seq<DialogueState>, Seq<DialogueEventView>, bool)
    decreases states.len(),
{
    if states.len() == 0 || assets.len() != states.len() {
        (states, Seq::empty(), false)
    } else {
        let prev = begin_all(assets.drop_last(), states.drop_last(), name);
        let nodes = assets.last();
        if lookup(nodes, name) is Some {
            let (s, es) = begin_spec(nodes, states.last(), name);
            (prev.0.push(s), prev.1 + es, true)
        } else {
            (prev.0.push(states.last()), prev.1, prev.2)
        }
    }
}

pub open spec fn assets_of(ds: Seq<Dialogue>) -> Seq<Seq<DialogueNode>> {
    ds.map_values(|d: Dialogue| d.asset.nodes@)
}

pub open spec fn states_of(ds: Seq<Dialogue>) -> Seq<DialogueState> {
    ds.map_values(|d: Dialogue| d.state())
}

/// Every dialogue of the list is well formed.
pub open spec fn all_dialogues_wf(ds: Seq<Dialogue>) -> bool {
    forall|k: int| 0 <= k < ds.len() ==> #[trigger] ds[k].wf()
}

/// Starts the node `name` on every dialogue that has it.
pub fn begin_everywhere(dialogues: &mut Vec<Dialogue>, name: &str) -> (r: (bool, Vec<DialogueEvent>))
    requires
        all_dialogues_wf(old(dialogues)@),
    ensures
        ({
            let b = begin_all(assets_of(old(dialogues)@), states_of(old(dialogues)@), name@);
            &&& all_dialogues_wf(final(dialogues)@)
            &&& final(dialogues)@.len() == old(dialogues)@.len()
            &&& forall|k: int| 0 <= k < old(dialogues)@.len() ==> (#[trigger] final(dialogues)@[k]).asset == old(dialogues)@[k].asset
            &&& states_of(final(dialogues)@) == b.0
            &&& event_views(r.1@) == b.1
            &&& r.0 == b.2
        }),
{
    let ghost start = dialogues@;
    let ghost assets = assets_of(start);
    let mut events: Vec<DialogueEvent> = Vec::new();
    let mut began = false;
    let mut i: usize = 0;
    assert(event_views(events@) =~= Seq::<DialogueEventView>::empty());
    assert(states_of(start).take(0) =~= Seq::<DialogueState>::empty());
    while i < dialogues.len()
        invariant
            i <= dialogues@.len(),
            dialogues@.len() == start.len(),
            assets == assets_of(start),
            all_dialogues_wf(dialogues@),
            forall|k: int| 0 <= k < start.len() ==> (#[trigger] dialogues@[k]).asset == start[k].asset,
            forall|k: int| i <= k < start.len() ==> #[trigger] dialogues@[k] == start[k],
            states_of(dialogues@).take(i as int) == begin_all(assets.take(i as int), states_of(start).take(i as int), name@).0,
            event_views(events@) == begin_all(assets.take(i as int), states_of(start).take(i as int), name@).1,
            began == begin_all(assets.take(i as int), states_of(start).take(i as int), name@).2,
        decreases start.len() - i,
    {
        let ghost before = dialogues@;
        let ghost ev_before = event_views(events@);
        let ghost prev = begin_all(assets.take(i as int), states_of(start).take(i as int), name@);
        assert(assets.take(i + 1).drop_last() =~= assets.take(i as int));
        assert(states_of(start).take(i + 1).drop_last() =~= states_of(start).take(i as int));
        assert(dialogues@[i as int].wf());
        let (ok, mut es) = dialogues[i].begin_optional(name);
        events.append(&mut es);
        if ok {
            began = true;
        }
        proof {
            let next = begin_all(assets.take(i + 1), states_of(start).take(i + 1), name@);
            assert(forall|k: int| 0 <= k < start.len() && k != i ==> #[trigger] dialogues@[k] == before[k]);
            if ok {
                assert(next.1 =~= ev_before + begin_spec(start[i as int].asset.nodes@, start[i as int].state(), name@).1);
            } else {
                assert(es@.len() == 0);
            }
            assert(event_views(events@) =~= next.1);
            assert(states_of(dialogues@).take(i + 1) =~= next.0);
            assert(all_dialogues_wf(dialogues@)) by {
                assert forall|k: int| 0 <= k < dialogues@.len() implies #[trigger] dialogues@[k].wf() by {
                    if k != i {
                        assert(dialogues@[k] == before[k]);
                    }
                }
            }
        }
        i = i + 1;
    }
    assert(assets.take(start.len() as int) =~= assets);
    assert(states_of(start).take(start.len() as int) =~= states_of(start));
    assert(states_of(dialogues@).take(start.len() as int) =~= states_of(dialogues@));
    (began, events)
}

/// A node that a run passes without waiting: a `GoTo` whose name some node
/// carries, or a `Script`.
pub open spec fn silent(nodes: Seq<DialogueNode>, i: int) -> bool {
    &&& 0 <= i < nodes.len()
    &&& match nodes[i].body {
        NodeBody::GoTo(name) => lookup(nodes, name@) is Some,
        NodeBody::Script(_) => true,
        _ => false,
    }
}

/// Where a run goes from a silent node.
pub open spec fn next_node(nodes: Seq<DialogueNode>, i: int) -> int {
    match nodes[i].body {
        NodeBody::GoTo(name) => lookup(nodes, name@).unwrap(),
        _ => i + 1,
    }
}

/// The node reached after `k` silent steps from `i`.
pub open spec fn walk(nodes: Seq<DialogueNode>, i: int, k: nat) -> int
    decreases k,
{
    if k == 0 {
        i
    } else {
        walk(nodes, next_node(nodes, i), (k - 1) as nat)
    }
}

/// The run from `i` is still going, at a node, after `f` silent steps.
pub open spec fn exhausted(nodes: Seq<DialogueNode>, i: int, f: nat) -> bool
    decreases f,
{
    if i < 0 || i >= nodes.len() {
        false
    } else if f == 0 {
        true
    } else if silent(nodes, i) {
        exhausted(nodes, next_node(nodes, i), (f - 1) as nat)
    } else {
        false
    }
}

proof fn lemma_run_settles(nodes: Seq<DialogueNode>, i: int, f: nat, g: nat)
    requires
        f <= g,
        !exhausted(nodes, i, f),
    ensures
        run(nodes, i, g) == run(nodes, i, f),
    decreases f,
{
    if 0 <= i < nodes.len() && f > 0 {
        match nodes[i].body {
            NodeBody::GoTo(name) => {
                if let Some(j) = lookup(nodes, name@) {
                    lemma_run_settles(nodes, j, (f - 1) as nat, (g - 1) as nat);
                }
            },
            NodeBody::Script(_) => {
                lemma_run_settles(nodes, i + 1, (f - 1) as nat, (g - 1) as nat);
            },
            _ => {},
        }
    }
}

proof fn lemma_exhausted_faults(nodes: Seq<DialogueNode>, i: int, f: nat)
    requires
        exhausted(nodes, i, f),
    ensures
        run(nodes, i, f).2 is Fault,
    decreases f,
{
    if f > 0 {
        lemma_exhausted_faults(nodes, next_node(nodes, i), (f - 1) as nat);
    }
}

proof fn lemma_walk_next(nodes: Seq<DialogueNode>, i: int, k: nat)
    ensures
        walk(nodes, i, k + 1) == next_node(nodes, walk(nodes, i, k)),
    decreases k,
{
    let j = next_node(nodes, i);
    assert(walk(nodes, i, k + 1) == walk(nodes, j, k));
    if k > 0 {
        lemma_walk_next(nodes, j, (k - 1) as nat);
        assert(walk(nodes, i, k) == walk(nodes, j, (k - 1) as nat));
    } else {
        assert(walk(nodes, j, 0) == j);
        assert(walk(nodes, i, 0) == i);
    }
}

proof fn lemma_exhausted_walk(nodes: Seq<DialogueNode>, i: int, f: nat)
    requires
        exhausted(nodes, i, f),
    ensures
        forall|k: nat| k <= f ==> 0 <= #[trigger] walk(nodes, i, k) < nodes.len(),
        forall|k: nat| k < f ==> silent(nodes, #[trigger] walk(nodes, i, k)),
    decreases f,
{
    if f > 0 {
        let j = next_node(nodes, i);
        lemma_exhausted_walk(nodes, j, (f - 1) as nat);
        assert forall|k: nat| k <= f implies 0 <= #[trigger] walk(nodes, i, k) < nodes.len() by {
            if k > 0 {
                assert(walk(nodes, i, k) == walk(nodes, j, (k - 1) as nat));
            }
        }
        assert forall|k: nat| k < f implies silent(nodes, #[trigger] walk(nodes, i, k)) by {
            if k > 0 {
                assert(walk(nodes, i, k) == walk(nodes, j, (k - 1) as nat));
            }
        }
    }
}

proof fn lemma_walk_exhausts(nodes: Seq<DialogueNode>, i: int, f: nat)
    requires
        forall|k: nat| k <= f ==> 0 <= #[trigger] walk(nodes, i, k) < nodes.len(),
        forall|k: nat| k < f ==> silent(nodes, #[trigger] walk(nodes, i, k)),
    ensures
        exhausted(nodes, i, f),
    decreases f,
{
    assert(walk(nodes, i, 0) == i);
    if f > 0 {
        let j = next_node(nodes, i);
        assert forall|k: nat| k <= (f - 1) as nat implies 0 <= #[trigger] walk(nodes, j, k) < nodes.len() by {
            assert(walk(nodes, i, k + 1) == walk(nodes, j, k));
        }
        assert forall|k: nat| k < (f - 1) as nat implies silent(nodes, #[trigger] walk(nodes, j, k)) by {
            assert(walk(nodes, i, k + 1) == walk(nodes, j, k));
        }
        lemma_walk_exhausts(nodes, j, (f - 1) as nat);
    }
}

/// Among `n + 1` values in `[0, n)` two are equal.
proof fn lemma_pigeonhole(v: spec_fn(int) -> int, n: int)
    requires
        n >= 0,
        forall|k: int| 0 <= k <= n ==> 0 <= #[trigger] v(k) < n,
    ensures
        exists|a: int, b: int| 0 <= a < b <= n && #[trigger] v(a) == #[trigger] v(b),
    decreases n,
{
    if n == 0 {
        let x = v(0);
        assert(0 <= x < 0);
    } else if exists|a: int, b: int| 0 <= a < b <= n && #[trigger] v(a) == #[trigger] v(b) {
    } else {
        let h = |k: int| if v(k) == n - 1 {
            v(n)
        } else {
            v(k)
        };
        assert forall|k: int| 0 <= k <= n - 1 implies 0 <= #[trigger] h(k) < n - 1 by {
            if v(k) == n - 1 {
                assert(v(n) != v(k));
            }
        }
        lemma_pigeonhole(h, n - 1);
        let (a, b) = choose|a: int, b: int| 0 <= a < b <= n - 1 && #[trigger] h(a) == #[trigger] h(b);
        if v(a) == n - 1 && v(b) == n - 1 {
            assert(v(a) == v(b));
        } else if v(a) == n - 1 {
            assert(v(b) == v(n));
        } else if v(b) == n - 1 {
            assert(v(a) == v(n));
        } else {
            assert(v(a) == v(b));
        }
    }
}

/// A walk that comes back to a node along silent nodes goes round forever.
proof fn lemma_cycle_exhausts(nodes: Seq<DialogueNode>, i: int, a: nat, b: nat, g: nat)
    requires
        a < b,
        walk(nodes, i, a) == walk(nodes, i, b),
        forall|k: nat| k < b ==> silent(nodes, #[trigger] walk(nodes, i, k)),
    ensures
        exhausted(nodes, i, g),
{
    let p = (b - a) as nat;
    assert forall|k: nat| #[trigger] walk(nodes, i, k) == walk(nodes, i, if k < b { k } else { (a + (k - a) % (p as int)) as nat }) by {
        lemma_walk_periodic(nodes, i, a, b, k);
    }
    assert forall|k: nat| k <= g implies 0 <= #[trigger] walk(nodes, i, k) < nodes.len() by {
        let r: nat = if k < b { k } else { (a + (k - a) % (p as int)) as nat };
        assert(r < b) by {
            if k >= b {
                assert((k - a) % (p as int) < p);
            }
        }
        assert(walk(nodes, i, k) == walk(nodes, i, r));
        assert(silent(nodes, walk(nodes, i, r)));
    }
    assert forall|k: nat| k < g implies silent(nodes, #[trigger] walk(nodes, i, k)) by {
        let r: nat = if k < b { k } else { (a + (k - a) % (p as int)) as nat };
        assert(r < b) by {
            if k >= b {
                assert((k - a) % (p as int) < p);
            }
        }
        assert(walk(nodes, i, k) == walk(nodes, i, r));
    }
    lemma_walk_exhausts(nodes, i, g);
}

proof fn lemma_walk_periodic(nodes: Seq<DialogueNode>, i: int, a: nat, b: nat, k: nat)
    requires
        a < b,
        walk(nodes, i, a) == walk(nodes, i, b),
    ensures
        walk(nodes, i, k) == walk(nodes, i, if k < b { k } else { (a + (k - a) % ((b - a) as int)) as nat }),
    decreases k,
{
    let p = (b - a) as int;
    if k >= b {
        lemma_walk_periodic(nodes, i, a, b, (k - 1) as nat);
        lemma_walk_next(nodes, i, (k - 1) as nat);
        let prev: nat = if k - 1 < b { (k - 1) as nat } else { (a + (k - 1 - a) % p) as nat };
        lemma_walk_next(nodes, i, prev);
        assert(walk(nodes, i, k) == walk(nodes, i, prev + 1));
        if k - 1 < b {
            assert(k == b);
            assert((k - a) % p == 0) by (nonlinear_arith)
                requires
                    k - a == p,
                    p > 0,
            ;
            assert(walk(nodes, i, b) == walk(nodes, i, a));
        } else {
            let q = (k - 1 - a) % p;
            assert(0 <= q < p) by (nonlinear_arith)
                requires
                    p > 0,
                    q == (k - 1 - a) % p,
            ;
            if q + 1 < p {
                assert((k - a) % p == q + 1) by (nonlinear_arith)
                    requires
                        p > 0,
                        q == (k - 1 - a) % p,
                        q + 1 < p,
                        k - 1 - a >= 0,
                ;
            } else {
                assert((k - a) % p == 0) by (nonlinear_arith)
                    requires
                        p > 0,
                        q == (k - 1 - a) % p,
                        q + 1 == p,
                        k - 1 - a >= 0,
                ;
                assert(prev + 1 == b);
                assert(walk(nodes, i, b) == walk(nodes, i, a));
            }
        }
    }
}

/// As many silent steps as there are nodes are enough: with any larger
/// budget a run faults exactly when it faults with that many, and when it
/// does not, it stops at the same node with the same events. A run that
/// uses up the budget has gone round a loop of nodes that never waits.
pub proof fn lemma_enough_fuel(nodes: Seq<DialogueNode>, i: int, g: nat)
    requires
        g >= nodes.len(),
    ensures
        run(nodes, i, g).2 is Fault <==> run_from(nodes, i).2 is Fault,
        !(run_from(nodes, i).2 is Fault) ==> run(nodes, i, g) == run_from(nodes, i),
{
    let n = nodes.len();
    if exhausted(nodes, i, n) {
        lemma_exhausted_faults(nodes, i, n);
        lemma_exhausted_walk(nodes, i, n);
        let v = |k: int| walk(nodes, i, k as nat);
        assert forall|k: int| 0 <= k <= n implies 0 <= #[trigger] v(k) < n by {
            assert(0 <= walk(nodes, i, k as nat) < n);
        }
        lemma_pigeonhole(v, n as int);
        let (a, b) = choose|a: int, b: int| 0 <= a < b <= n && #[trigger] v(a) == #[trigger] v(b);
        assert forall|k: nat| k < b as nat implies silent(nodes, #[trigger] walk(nodes, i, k)) by {
            assert(k < n);
        }
        lemma_cycle_exhausts(nodes, i, a as nat, b as nat, g);
        lemma_exhausted_faults(nodes, i, g);
    } else {
        lemma_run_settles(nodes, i, n, g);
    }
}

} // verus!
