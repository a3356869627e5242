use vstd::prelude::*;

verus! {

/// A world change that script code asks for.
#[derive(Debug, Clone)]
pub enum ScriptCommand {
    SetVisible(String, bool),
    SetCollectable(String, bool),
    StartDialogueIfExists(String),
    PlaySound(String),
}

/// A `ScriptCommand` with its strings as characters.
pub enum ScriptCommandView {
    SetVisible(Seq<char>, bool),
    SetCollectable(Seq<char>, bool),
    StartDialogueIfExists(Seq<char>),
    PlaySound(Seq<char>),
}

impl View for ScriptCommand {
    type V = ScriptCommandView;

    open spec fn view(&self) -> ScriptCommandView {
        match self {
            ScriptCommand::SetVisible(n, v) => ScriptCommandView::SetVisible(n@, *v),
            ScriptCommand::SetCollectable(n, v) => ScriptCommandView::SetCollectable(n@, *v),
            ScriptCommand::StartDialogueIfExists(n) => ScriptCommandView::StartDialogueIfExists(n@),
            ScriptCommand::PlaySound(p) => ScriptCommandView::PlaySound(p@),
        }
    }
}

/// The marker that the script core module is defined on an interpreter.
#[derive(Debug, Clone, Copy)]
pub struct ScriptCore {}

impl Default for ScriptCore {
    fn default() -> (r: ScriptCore)
        ensures
            r == (ScriptCore {}),
    {
        ScriptCore {}
    }
}

/// The commands that script callbacks append and the host drains once per
/// frame. Its view is the pending commands, oldest first.
#[derive(Debug)]
pub struct CommandQueue {
    commands: Vec<ScriptCommand>,
}

impl View for CommandQueue {
    type V = Seq<ScriptCommand>;

    closed spec fn view(&self) -> Seq<ScriptCommand> {
        self.commands@
    }
}

/// The commands that a property map of an object asks for: `visible` sets
/// the visibility, a true `collectable` makes the object collectable; other
/// properties ask for nothing.
pub open spec fn property_commands(name: Seq<char>, props: Seq<(String, bool)>) -> Seq<ScriptCommandView>
    decreases props.len(),
{
    if props.len() == 0 {
        Seq::empty()
    } else {
        let prev = property_commands(name, props.drop_last());
        let (key, value) = props.last();
        let with_visible = if key@ == "visible"@ {
            prev.push(ScriptCommandView::SetVisible(name, value))
        } else {
            prev
        };
        if key@ == "collectable"@ && value {
            with_visible.push(ScriptCommandView::SetCollectable(name, true))
        } else {
            with_visible
        }
    }
}

pub open spec fn command_views(s: Seq<ScriptCommand>) -> Seq<ScriptCommandView> {
    s.map_values(|c: ScriptCommand| c@)
}

impl CommandQueue {
    /// An empty queue.
    pub fn new() -> (r: CommandQueue)
        ensures
            r@ == Seq::<ScriptCommand>::empty(),
    {
        CommandQueue { commands: Vec::new() }
    }

    /// The number of pending commands.
    pub fn len(&self) -> (r: usize)
        ensures
            r == self@.len(),
    {
        self.commands.len()
    }

    /// Appends one command.
    pub fn push(&mut self, command: ScriptCommand)
        ensures
            final(self)@ == old(self)@.push(command),
    {
        self.commands.push(command);
    }

    /// Hands out every pending command, oldest first, and leaves the queue
    /// empty.
    pub fn drain(&mut self) -> (r: Vec<ScriptCommand>)
        ensures
            r@ == old(self)@,
            final(self)@ == Seq::<ScriptCommand>::empty(),
    {
        let mut out: Vec<ScriptCommand> = Vec::new();
        std::mem::swap(&mut self.commands, &mut out);
        out
    }

    /// Script function `set_visible(object_name, visible)`.
    pub fn set_visible(&mut self, object_name: &str, visible: bool)
        ensures
            command_views(final(self)@) == command_views(old(self)@).push(
                ScriptCommandView::SetVisible(object_name@, visible),
            ),
    {
        self.push(ScriptCommand::SetVisible(object_name.to_owned(), visible));
        assert(command_views(self@) =~= command_views(old(self)@).push(
            ScriptCommandView::SetVisible(object_name@, visible),
        ));
    }

    /// Script function `set_collectable(object_name, collectable)`.
    pub fn set_collectable(&mut self, object_name: &str, collectable: bool)
        ensures
            command_views(final(self)@) == command_views(old(self)@).push(
                ScriptCommandView::SetCollectable(object_name@, collectable),
            ),
    {
        self.push(ScriptCommand::SetCollectable(object_name.to_owned(), collectable));
        assert(command_views(self@) =~= command_views(old(self)@).push(
            ScriptCommandView::SetCollectable(object_name@, collectable),
        ));
    }

    /// Script function `start_dialogue(node_name)`.
    pub fn start_dialogue(&mut self, node_name: &str)
        ensures
            command_views(final(self)@) == command_views(old(self)@).push(
                ScriptCommandView::StartDialogueIfExists(node_name@),
            ),
    {
        self.push(ScriptCommand::StartDialogueIfExists(node_name.to_owned()));
        assert(command_views(self@) =~= command_views(old(self)@).push(
            ScriptCommandView::StartDialogueIfExists(node_name@),
        ));
    }

    /// Script function `play_sound(path)`.
    pub fn play_sound(&mut self, path: &str)
        ensures
            command_views(final(self)@) == command_views(old(self)@).push(
                ScriptCommandView::PlaySound(path@),
            ),
    {
        self.push(ScriptCommand::PlaySound(path.to_owned()));
        assert(command_views(self@) =~= command_views(old(self)@).push(
            ScriptCommandView::PlaySound(path@),
        ));
    }

    /// Script function `update_map_objects_by_name(map_id, name, props)`:
    /// appends, property by property, what `property_commands` says.
    pub fn update_map_objects_by_name(&mut self, name: &str, props: &Vec<(String, bool)>)
        ensures
            command_views(final(self)@) == command_views(old(self)@) + property_commands(name@, props@),
    {
        let visible_key: String = "visible".to_owned();
        let collectable_key: String = "collectable".to_owned();
        let mut i: usize = 0;
        assert(props@.take(0) =~= Seq::<(String, bool)>::empty());
        assert(command_views(self@) =~= command_views(old(self)@) + property_commands(name@, props@.take(0)));
        while i < props.len()
            invariant
                i <= props@.len(),
                visible_key@ == "visible"@,
                collectable_key@ == "collectable"@,
                command_views(self@) == command_views(old(self)@) + property_commands(name@, props@.take(i as int)),
            decreases props@.len() - i,
        {
            let ghost before = command_views(self@);
            let (key, value) = &props[i];
            assert(props@.take(i + 1).drop_last() =~= props@.take(i as int));
            assert(props@.take(i + 1).last() == props@[i as int]);
            if *key == visible_key {
                self.set_visible(name, *value);
            }
            let ghost mid = command_views(self@);
            if *key == collectable_key && *value {
                self.set_collectable(name, true);
            }
            proof {
                let prev = property_commands(name@, props@.take(i as int));
                assert(before == command_views(old(self)@) + prev);
                if key@ == "visible"@ {
                    assert(mid =~= command_views(old(self)@) + prev.push(ScriptCommandView::SetVisible(name@, *value)));
                } else {
                    assert(mid == command_views(old(self)@) + prev);
                }
                let with_visible = if key@ == "visible"@ {
                    prev.push(ScriptCommandView::SetVisible(name@, *value))
                } else {
                    prev
                };
                assert(mid == command_views(old(self)@) + with_visible);
                if key@ == "collectable"@ && *value {
                    assert(command_views(self@) =~= command_views(old(self)@) + with_visible.push(ScriptCommandView::SetCollectable(name@, true)));
                }
            }
            i = i + 1;
        }
        assert(props@.take(props@.len() as int) =~= props@);
    }
}

/// Draining a fresh queue after appending `cs` one by one hands out exactly
/// `cs`, in the order of appending; the drain leaves the queue empty, so a
/// second drain right after it hands out nothing. `states[i]` is the view
/// of the queue after `i` appends, related as `push` relates them;
/// `first` and `second` are what the two drains return as `drain` says.
pub proof fn lemma_drain_after_appends(
    cs: Seq<ScriptCommand>,
    states: Seq<Seq<ScriptCommand>>,
    first: Seq<ScriptCommand>,
    between: Seq<ScriptCommand>,
    second: Seq<ScriptCommand>,
)
    requires
        states.len() == cs.len() + 1,
        states[0] == Seq::<ScriptCommand>::empty(),
        forall|i: int| 0 <= i < cs.len() ==> #[trigger] states[i + 1] == states[i].push(cs[i]),
        first == states[cs.len() as int],
        between == Seq::<ScriptCommand>::empty(),
        second == between,
    ensures
        first == cs,
        second.len() == 0,
{
    assert forall|n: int| 0 <= n <= cs.len() implies #[trigger] states[n] == cs.take(n) by {
        lemma_states_prefix(cs, states, n);
    }
    assert(cs.take(cs.len() as int) =~= cs);
}

proof fn lemma_states_prefix(cs: Seq<ScriptCommand>, states: Seq<Seq<ScriptCommand>>, n: int)
    requires
        states.len() == cs.len() + 1,
        states[0] == Seq::<ScriptCommand>::empty(),
        forall|i: int| 0 <= i < cs.len() ==> #[trigger] states[i + 1] == states[i].push(cs[i]),
        0 <= n <= cs.len(),
    ensures
        states[n] == cs.take(n),
    decreases n,
{
    if n == 0 {
        assert(cs.take(0) =~= Seq::<ScriptCommand>::empty());
    } else {
        lemma_states_prefix(cs, states, n - 1);
        assert(states[(n - 1) + 1] == states[n - 1].push(cs[n - 1]));
        assert(cs.take(n - 1).push(cs[n - 1]) =~= cs.take(n));
    }
}

} // verus!
