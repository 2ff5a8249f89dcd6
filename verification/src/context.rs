//! What one parse path has gathered: the nodes it went through, the
//! arguments it parsed, the command to run, and the context of the subtree
//! that a redirect continued in.
use vstd::prelude::*;
use crate::arguments::{ArgumentValue, ValueView};
use crate::suggestion::StringRange;
use crate::text::{copy_text, same_text, to_chars, to_text};

verus! {

/// A parsed value and where in the input its text stood.
#[derive(Debug)]
pub struct ParsedArgument {
    pub range: StringRange,
    pub result: ArgumentValue,
}

/// A parsed argument, as plain values.
pub struct ParsedArgumentView {
    pub range: StringRange,
    pub result: ValueView,
}

impl View for ParsedArgument {
    type V = ParsedArgumentView;

    open spec fn view(&self) -> ParsedArgumentView {
        ParsedArgumentView { range: self.range, result: self.result@ }
    }
}

impl ParsedArgument {
    pub fn new(start: usize, end: usize, result: ArgumentValue) -> (p: Self)
        ensures
            p@ == (ParsedArgumentView { range: StringRange { start, end }, result: result@ }),
    {
        ParsedArgument { range: StringRange { start, end }, result }
    }

    pub fn get_range(&self) -> (r: StringRange)
        ensures
            r == self@.range,
    {
        self.range
    }

    pub fn get_result(&self) -> (v: &ArgumentValue)
        ensures
            v@ == self@.result,
    {
        &self.result
    }

    /// A copy of this argument.
    pub fn duplicate(&self) -> (p: Self)
        ensures
            p@ == self@,
    {
        ParsedArgument { range: self.range, result: self.result.duplicate() }
    }
}

/// A node that the path went through, and the range of input it consumed.
#[derive(Clone, Copy, Debug, PartialEq, Eq, Structural)]
pub struct ParsedCommandNode {
    pub node: usize,
    pub range: StringRange,
}

/// An argument under its name.
#[derive(Debug)]
pub struct NamedArgument {
    pub name: Vec<char>,
    pub value: ParsedArgument,
}

/// The view of a named argument.
pub type NamedArgumentView = (Seq<char>, ParsedArgumentView);

impl View for NamedArgument {
    type V = NamedArgumentView;

    open spec fn view(&self) -> NamedArgumentView {
        (self.name@, self.value@)
    }
}

/// The first offset at or after `from` of an argument named `name`, or the
/// length of `arguments` if there is none.
pub open spec fn position(arguments: Seq<NamedArgumentView>, name: Seq<char>, from: int) -> int
    decreases arguments.len() - from,
{
    if 0 <= from < arguments.len() && arguments[from].0 != name {
        position(arguments, name, from + 1)
    } else {
        from
    }
}

/// `position` from `from` is the first `p` that holds `name`, or the length.
pub proof fn lemma_position_is(arguments: Seq<NamedArgumentView>, name: Seq<char>, from: int, p: int)
    requires
        0 <= from <= p <= arguments.len(),
        forall|i: int| from <= i < p ==> (#[trigger] arguments[i]).0 != name,
        p == arguments.len() || arguments[p].0 == name,
    ensures
        position(arguments, name, from) == p,
    decreases p - from,
{
    if from < p {
        lemma_position_is(arguments, name, from + 1, p);
    }
}

/// A context, as plain values.
pub struct ContextView {
    pub root: usize,
    pub arguments: Seq<NamedArgumentView>,
    pub nodes: Seq<ParsedCommandNode>,
    pub range: StringRange,
    pub command: Option<u32>,
    pub child: Option<Box<ContextView>>,
    pub modifier: Option<u32>,
    pub forks: bool,
}

impl ContextView {
    /// The context of a path that starts at node `root` and offset `start`.
    pub open spec fn fresh(root: usize, start: usize) -> ContextView {
        ContextView {
            root,
            arguments: Seq::empty(),
            nodes: Seq::empty(),
            range: StringRange { start, end: start },
            command: None,
            child: None,
            modifier: None,
            forks: false,
        }
    }

    /// The argument named `name`, if the path parsed one.
    pub open spec fn argument(self, name: Seq<char>) -> Option<ParsedArgumentView> {
        let p = position(self.arguments, name, 0);
        if p < self.arguments.len() {
            Some(self.arguments[p].1)
        } else {
            None
        }
    }

    /// This context with `value` under `name`: in the place of an earlier
    /// argument of that name, else after all others.
    pub open spec fn put_argument(self, name: Seq<char>, value: ParsedArgumentView) -> ContextView {
        let p = position(self.arguments, name, 0);
        ContextView {
            arguments: if p < self.arguments.len() {
                self.arguments.update(p, (name, value))
            } else {
                self.arguments.push((name, value))
            },
            ..self
        }
    }

    /// This context after the path went through `node`, which consumed
    /// `range`: the context's range grows to hold `range`, and the node's
    /// redirect modifier and fork flag become the context's.
    pub open spec fn add_node(
        self,
        node: usize,
        range: StringRange,
        modifier: Option<u32>,
        forks: bool,
    ) -> ContextView {
        ContextView {
            nodes: self.nodes.push(ParsedCommandNode { node, range }),
            range: StringRange {
                start: if self.range.start <= range.start {
                    self.range.start
                } else {
                    range.start
                },
                end: if self.range.end >= range.end {
                    self.range.end
                } else {
                    range.end
                },
            },
            modifier,
            forks,
            ..self
        }
    }

    pub open spec fn set_command(self, command: Option<u32>) -> ContextView {
        ContextView { command, ..self }
    }

    pub open spec fn set_child(self, child: ContextView) -> ContextView {
        ContextView { child: Some(Box::new(child)), ..self }
    }

    /// The context that the chain of redirects ends in.
    pub open spec fn last(self) -> ContextView
        decreases self,
    {
        match self.child {
            Some(c) => c.last(),
            None => self,
        }
    }
}

/// The views of a list of arguments.
pub open spec fn arguments_of(list: Seq<NamedArgument>) -> Seq<NamedArgumentView> {
    Seq::new(list.len(), |i: int| list[i]@)
}

/// Accumulates a context along one parse path.
#[derive(Debug)]
pub struct CommandContextBuilder {
    root: usize,
    arguments: Vec<NamedArgument>,
    nodes: Vec<ParsedCommandNode>,
    range: StringRange,
    command: Option<u32>,
    child: Option<Box<CommandContextBuilder>>,
    modifier: Option<u32>,
    forks: bool,
}

impl View for CommandContextBuilder {
    type V = ContextView;

    closed spec fn view(&self) -> ContextView {
        self.model()
    }
}

impl CommandContextBuilder {
    /// What this builder has gathered, with its chain of children.
    pub closed spec fn model(&self) -> ContextView
        decreases self,
    {
        ContextView {
            root: self.root,
            arguments: arguments_of(self.arguments@),
            nodes: self.nodes@,
            range: self.range,
            command: self.command,
            child: match self.child {
                Some(c) => Some(Box::new(c.model())),
                None => None,
            },
            modifier: self.modifier,
            forks: self.forks,
        }
    }

    /// A builder for a path that starts at node `root` and offset `start`.
    pub fn new(root: usize, start: usize) -> (b: Self)
        ensures
            b@ == ContextView::fresh(root, start),
    {
        let b = CommandContextBuilder {
            root,
            arguments: Vec::new(),
            nodes: Vec::new(),
            range: StringRange { start, end: start },
            command: None,
            child: None,
            modifier: None,
            forks: false,
        };
        assert(arguments_of(b.arguments@) =~= Seq::empty());
        b
    }

    fn find(&self, name: &Vec<char>) -> (p: usize)
        ensures
            p == position(self@.arguments, name@, 0),
            p <= self.arguments.len(),
    {
        let mut p: usize = 0;
        while p < self.arguments.len() && !same_text(&self.arguments[p].name, name)
            invariant
                p <= self.arguments.len(),
                forall|i: int| 0 <= i < p ==> (#[trigger] self@.arguments[i]).0 != name@,
            decreases self.arguments.len() - p,
        {
            p = p + 1;
        }
        proof {
            lemma_position_is(self@.arguments, name@, 0, p as int);
        }
        p
    }

    /// Records `value` under `name`.
    pub fn with_argument(&mut self, name: &Vec<char>, value: ParsedArgument)
        ensures
            final(self)@ == old(self)@.put_argument(name@, value@),
    {
        let p: usize = self.find(name);
        let entry = NamedArgument { name: copy_text(name), value };
        let ghost before = self@.arguments;
        if p < self.arguments.len() {
            self.arguments.set(p, entry);
            assert(self@.arguments =~= before.update(p as int, (name@, value@)));
        } else {
            self.arguments.push(entry);
            assert(self@.arguments =~= before.push((name@, value@)));
        }
    }

    /// Records that the path went through `node`, which consumed `range`.
    pub fn with_node(&mut self, node: usize, range: StringRange, modifier: Option<u32>, forks: bool)
        ensures
            final(self)@ == old(self)@.add_node(node, range, modifier, forks),
    {
        self.nodes.push(ParsedCommandNode { node, range });
        self.range = StringRange::encompassing(&self.range, &range);
        self.modifier = modifier;
        self.forks = forks;
    }

    pub fn with_command(&mut self, command: Option<u32>)
        ensures
            final(self)@ == old(self)@.set_command(command),
    {
        self.command = command;
    }

    pub fn with_child(&mut self, child: CommandContextBuilder)
        ensures
            final(self)@ == old(self)@.set_child(child@),
    {
        self.child = Some(Box::new(child));
    }

    /// A copy of this builder, with its chain of children.
    pub fn duplicate(&self) -> (b: Self)
        ensures
            b@ == self@,
        decreases self,
    {
        let mut arguments: Vec<NamedArgument> = Vec::new();
        let mut i: usize = 0;
        while i < self.arguments.len()
            invariant
                i <= self.arguments.len(),
                arguments_of(arguments@) == arguments_of(self.arguments@).subrange(0, i as int),
            decreases self.arguments.len() - i,
        {
            let a = &self.arguments[i];
            let ghost before = arguments@;
            arguments.push(NamedArgument { name: copy_text(&a.name), value: a.value.duplicate() });
            assert(arguments_of(arguments@) =~= arguments_of(before).push(a@));
            assert(arguments_of(arguments@) =~= arguments_of(self.arguments@).subrange(0, i + 1));
            i = i + 1;
        }
        assert(arguments_of(arguments@) =~= arguments_of(self.arguments@));
        let mut nodes: Vec<ParsedCommandNode> = Vec::new();
        let mut j: usize = 0;
        while j < self.nodes.len()
            invariant
                j <= self.nodes.len(),
                nodes@ == self.nodes@.subrange(0, j as int),
            decreases self.nodes.len() - j,
        {
            nodes.push(self.nodes[j]);
            j = j + 1;
        }
        assert(nodes@ =~= self.nodes@);
        let child = match &self.child {
            Some(c) => Some(Box::new(c.duplicate())),
            None => None,
        };
        CommandContextBuilder {
            root: self.root,
            arguments,
            nodes,
            range: self.range,
            command: self.command,
            child,
            modifier: self.modifier,
            forks: self.forks,
        }
    }

    pub fn get_root_node(&self) -> (r: usize)
        ensures
            r == self@.root,
    {
        self.root
    }

    pub fn get_range(&self) -> (r: StringRange)
        ensures
            r == self@.range,
    {
        self.range
    }

    pub fn get_command(&self) -> (c: Option<u32>)
        ensures
            c == self@.command,
    {
        self.command
    }

    pub fn get_redirect_modifier(&self) -> (m: Option<u32>)
        ensures
            m == self@.modifier,
    {
        self.modifier
    }

    pub fn is_forked(&self) -> (f: bool)
        ensures
            f == self@.forks,
    {
        self.forks
    }

    pub fn has_nodes(&self) -> (r: bool)
        ensures
            r == (self@.nodes.len() > 0),
    {
        self.nodes.len() > 0
    }

    pub fn get_nodes(&self) -> (n: &Vec<ParsedCommandNode>)
        ensures
            n@ == self@.nodes,
    {
        &self.nodes
    }

    pub fn get_child(&self) -> (c: Option<&CommandContextBuilder>)
        ensures
            match c {
                Some(b) => self@.child == Some(Box::new(b@)),
                None => self@.child is None,
            },
    {
        match &self.child {
            Some(c) => Some(&**c),
            None => None,
        }
    }

    /// The builder that the chain of redirects ends in.
    pub fn get_last_child(&self) -> (c: &CommandContextBuilder)
        ensures
            c@ == self@.last(),
        decreases self,
    {
        match &self.child {
            Some(c) => c.get_last_child(),
            None => self,
        }
    }

    /// The argument named `name`, if the path parsed one.
    pub fn get_argument(&self, name: &str) -> (a: Option<&ParsedArgument>)
        ensures
            match a {
                Some(p) => self@.argument(name@) == Some(p@),
                None => self@.argument(name@) is None,
            },
    {
        let key = to_chars(name);
        let p: usize = self.find(&key);
        if p < self.arguments.len() {
            Some(&self.arguments[p].value)
        } else {
            None
        }
    }

    /// The names of the arguments, in the order they were first parsed.
    pub fn get_argument_names(&self) -> (out: Vec<String>)
        ensures
            out@.len() == self@.arguments.len(),
            forall|i: int| 0 <= i < out@.len() ==> (#[trigger] out@[i])@ == self@.arguments[i].0,
    {
        let mut out: Vec<String> = Vec::new();
        let mut i: usize = 0;
        while i < self.arguments.len()
            invariant
                i <= self.arguments.len(),
                out@.len() == i,
                forall|k: int| 0 <= k < i ==> (#[trigger] out@[k])@ == self@.arguments[k].0,
            decreases self.arguments.len() - i,
        {
            out.push(to_text(&self.arguments[i].name));
            i = i + 1;
        }
        out
    }
}

impl CommandContextBuilder {
    /// The context of this builder for `input`: what an executor is given.
    pub fn build(&self, input: &str) -> (c: CommandContext)
        ensures
            c@ == (CommandContextView { input: input@, context: self@ }),
    {
        CommandContext { input: to_chars(input), context: self.duplicate() }
    }
}

/// A built context, as plain values.
pub struct CommandContextView {
    pub input: Seq<char>,
    pub context: ContextView,
}

/// What a parse path gathered, together with the input it was parsed
/// from.
#[derive(Debug)]
pub struct CommandContext {
    input: Vec<char>,
    context: CommandContextBuilder,
}

impl View for CommandContext {
    type V = CommandContextView;

    closed spec fn view(&self) -> CommandContextView {
        CommandContextView { input: self.input@, context: self.context@ }
    }
}

impl CommandContext {
    pub fn get_input(&self) -> (s: String)
        ensures
            s@ == self@.input,
    {
        to_text(&self.input)
    }

    pub fn get_range(&self) -> (r: StringRange)
        ensures
            r == self@.context.range,
    {
        self.context.get_range()
    }

    pub fn get_root_node(&self) -> (r: usize)
        ensures
            r == self@.context.root,
    {
        self.context.get_root_node()
    }

    pub fn get_command(&self) -> (c: Option<u32>)
        ensures
            c == self@.context.command,
    {
        self.context.get_command()
    }

    pub fn get_redirect_modifier(&self) -> (m: Option<u32>)
        ensures
            m == self@.context.modifier,
    {
        self.context.get_redirect_modifier()
    }

    pub fn is_forked(&self) -> (f: bool)
        ensures
            f == self@.context.forks,
    {
        self.context.is_forked()
    }

    pub fn has_nodes(&self) -> (r: bool)
        ensures
            r == (self@.context.nodes.len() > 0),
    {
        self.context.has_nodes()
    }

    pub fn get_nodes(&self) -> (n: &Vec<ParsedCommandNode>)
        ensures
            n@ == self@.context.nodes,
    {
        self.context.get_nodes()
    }

    /// The argument named `name`, if the path parsed one.
    pub fn get_argument(&self, name: &str) -> (a: Option<&ParsedArgument>)
        ensures
            match a {
                Some(p) => self@.context.argument(name@) == Some(p@),
                None => self@.context.argument(name@) is None,
            },
    {
        self.context.get_argument(name)
    }

    /// The context of the subtree that the redirect continued in.
    pub fn get_child(&self) -> (c: Option<CommandContext>)
        ensures
            match c {
                Some(b) => self@.context.child == Some(Box::new(b@.context)) && b@.input
                    == self@.input,
                None => self@.context.child is None,
            },
    {
        match self.context.get_child() {
            Some(child) => Some(
                CommandContext { input: copy_text(&self.input), context: child.duplicate() },
            ),
            None => None,
        }
    }
}

} // verus!
