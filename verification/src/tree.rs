//! The nodes of a command tree.
//!
//! A tree is a list of nodes; a node refers to its children and to its
//! redirect target by their offsets in that list. What the embedder
//! supplies as functions (the executor of a command, the requirement that
//! gates a node, the modifier of a redirect, a custom suggestion provider)
//! a node holds as a handle: a number that the embedder resolves.
use vstd::prelude::*;
use crate::arguments::{ArgumentType, ArgumentValue, ValueView};
use crate::context::{
    CommandContext,
    CommandContextBuilder,
    CommandContextView,
    ContextView,
    ParsedArgument,
    ParsedArgumentView,
};
use crate::exceptions::{BuiltInExceptions, CommandSyntaxException, ExceptionView};
use crate::string_reader::StringReader;
use crate::arguments::texts_of;
use crate::suggestion::{
    arranged,
    candidate_added,
    range_of,
    ranged,
    suggested,
    typed_of,
    BuilderView,
    Candidate,
    StringRange,
    Suggestions,
    SuggestionsBuilder,
};
use crate::text::{copy_text, lex_less, starts_alike, text_starts_alike, to_chars, to_text};

verus! {

pub const USAGE_ARGUMENT_OPEN: char = '<';

pub const USAGE_ARGUMENT_CLOSE: char = '>';

pub const ARGUMENT_SEPARATOR: char = ' ';

/// What every kind of node has.
#[derive(Debug)]
pub struct BaseCommandNode {
    /// The children, in the order they were added.
    pub children: Vec<usize>,
    /// The children, in the order parsing tries them.
    pub ordered: Vec<usize>,
    /// The executor to run when the input ends at this node.
    pub command: Option<u32>,
    /// The requirement that a source must meet to use this node.
    pub requirement: Option<u32>,
    /// The node in whose subtree parsing goes on after this node.
    pub redirect: Option<usize>,
    /// The modifier that derives the sources of the redirect.
    pub modifier: Option<u32>,
    /// Whether the redirect is a fork.
    pub forks: bool,
}

impl BaseCommandNode {
    /// A base with no children, executor, requirement or redirect.
    pub fn new() -> (b: Self)
        ensures
            b.children@.len() == 0,
            b.ordered@.len() == 0,
            b.command is None,
            b.requirement is None,
            b.redirect is None,
            b.modifier is None,
            !b.forks,
    {
        BaseCommandNode {
            children: Vec::new(),
            ordered: Vec::new(),
            command: None,
            requirement: None,
            redirect: None,
            modifier: None,
            forks: false,
        }
    }

    pub fn get_command(&self) -> (c: Option<u32>)
        ensures
            c == self.command,
    {
        self.command
    }

    pub fn get_requirement(&self) -> (c: Option<u32>)
        ensures
            c == self.requirement,
    {
        self.requirement
    }

    pub fn get_redirect(&self) -> (c: Option<usize>)
        ensures
            c == self.redirect,
    {
        self.redirect
    }

    pub fn get_redirect_modifier(&self) -> (c: Option<u32>)
        ensures
            c == self.modifier,
    {
        self.modifier
    }

    pub fn is_fork(&self) -> (f: bool)
        ensures
            f == self.forks,
    {
        self.forks
    }

    pub fn get_children(&self) -> (c: &Vec<usize>)
        ensures
            c@ == self.children@,
    {
        &self.children
    }

    /// Whether a source for which the requirements in `granted` hold can
    /// use this node.
    pub open spec fn usable(&self, granted: Seq<u32>) -> bool {
        match self.requirement {
            Some(r) => granted.contains(r),
            None => true,
        }
    }

    /// Whether a source for which the requirements in `granted` hold can
    /// use this node.
    pub fn can_use(&self, granted: &Vec<u32>) -> (r: bool)
        ensures
            r == self.usable(granted@),
    {
        match self.requirement {
            None => true,
            Some(req) => {
                let mut i: usize = 0;
                while i < granted.len()
                    invariant
                        i <= granted.len(),
                        self.requirement == Some(req),
                        forall|k: int| 0 <= k < i ==> granted@[k] != req,
                    decreases granted.len() - i,
                {
                    if granted[i] == req {
                        assert(granted@[i as int] == req);
                        return true;
                    }
                    i = i + 1;
                }
                false
            },
        }
    }

    /// The settings of this base, without its children.
    fn settings(&self) -> (b: Self)
        ensures
            b.children@.len() == 0,
            b.ordered@.len() == 0,
            b.command == self.command,
            b.requirement == self.requirement,
            b.redirect == self.redirect,
            b.modifier == self.modifier,
            b.forks == self.forks,
    {
        BaseCommandNode {
            children: Vec::new(),
            ordered: Vec::new(),
            command: self.command,
            requirement: self.requirement,
            redirect: self.redirect,
            modifier: self.modifier,
            forks: self.forks,
        }
    }
}

/// The node at the top of a tree: unnamed, it matches without consuming
/// anything.
#[derive(Debug)]
pub struct RootCommandNode {
    pub base: BaseCommandNode,
}

/// A node that matches one fixed token.
#[derive(Debug)]
pub struct LiteralCommandNode {
    pub literal: Vec<char>,
    pub base: BaseCommandNode,
}

/// A node that parses a value with its type.
#[derive(Debug)]
pub struct ArgumentCommandNode<T> {
    pub name: Vec<char>,
    pub type_: T,
    pub custom_suggestions: Option<u32>,
    pub base: BaseCommandNode,
}

/// A builder of a literal node: the node's settings, before it is added to
/// a tree.
#[derive(Debug)]
pub struct LiteralArgumentBuilder {
    pub literal: Vec<char>,
    pub base: BaseCommandNode,
}

/// A builder of an argument node.
#[derive(Debug)]
pub struct RequiredArgumentBuilder<T> {
    pub name: Vec<char>,
    pub type_: T,
    pub custom_suggestions: Option<u32>,
    pub base: BaseCommandNode,
}

/// Either kind of builder.
#[derive(Debug)]
pub enum ArgumentBuilder<T> {
    Literal(LiteralArgumentBuilder),
    Argument(RequiredArgumentBuilder<T>),
}

/// The outcome of one node's parse: the context after it and the offset
/// just past what the node consumed, or the kind of failure and its offset.
pub type NodeOutcome = Result<(ContextView, int), (BuiltInExceptions, int)>;

/// Where a match of `literal` at `cursor` ends: the input goes on with
/// `literal` there, followed by the end of the input or a separator.
pub open spec fn literal_end(literal: Seq<char>, input: Seq<char>, cursor: int) -> Option<int> {
    let end = cursor + literal.len();
    if 0 <= cursor && end <= input.len() && input.subrange(cursor, end) == literal && (end
        == input.len() || input[end] == ARGUMENT_SEPARATOR) {
        Some(end)
    } else {
        None
    }
}

/// Whether a trial parse that ended at `end` took all of `input`, or all
/// but one trailing separator.
pub open spec fn consumed(input: Seq<char>, end: int) -> bool {
    end == input.len() || (end + 1 == input.len() && input[end] == ARGUMENT_SEPARATOR)
}

/// What the exec `parse` of a node states, given the outcome it is to
/// have: on success the cursor is just past what the node consumed and the
/// context has what it recorded; on failure the failure carries its offset,
/// the cursor is at that offset, and the context is as it was. A caller
/// that goes on after a failure restores the cursor itself.
pub open spec fn parse_agrees(
    outcome: NodeOutcome,
    input: Seq<char>,
    before: ContextView,
    r: Result<(), CommandSyntaxException>,
    cursor: int,
    after: ContextView,
) -> bool {
    match outcome {
        Ok((context, end)) => r is Ok && cursor == end && after == context,
        Err((kind, at)) => r matches Err(e) && e@ == (ExceptionView { kind, input, cursor: at })
            && cursor == at && after == before,
    }
}

impl LiteralArgumentBuilder {
    /// A builder of a literal node that matches `literal`.
    pub fn literal(literal: &str) -> (b: Self)
        ensures
            b.literal@ == literal@,
            b.base.children@.len() == 0,
            b.base.ordered@.len() == 0,
            b.base.command is None,
            b.base.requirement is None,
            b.base.redirect is None,
            b.base.modifier is None,
            !b.base.forks,
    {
        LiteralArgumentBuilder { literal: to_chars(literal), base: BaseCommandNode::new() }
    }

    /// Sets the executor.
    pub fn executes(self, command: u32) -> (b: Self)
        ensures
            b.literal == self.literal,
            b.base == (BaseCommandNode { command: Some(command), ..self.base }),
    {
        LiteralArgumentBuilder {
            literal: self.literal,
            base: BaseCommandNode { command: Some(command), ..self.base },
        }
    }

    /// Sets the requirement.
    pub fn requiring(self, requirement: u32) -> (b: Self)
        ensures
            b.literal == self.literal,
            b.base == (BaseCommandNode { requirement: Some(requirement), ..self.base }),
    {
        LiteralArgumentBuilder {
            literal: self.literal,
            base: BaseCommandNode { requirement: Some(requirement), ..self.base },
        }
    }

    /// Sets the redirect: its target, its modifier and whether it forks.
    pub fn forward(self, target: Option<usize>, modifier: Option<u32>, forks: bool) -> (b: Self)
        ensures
            b.literal == self.literal,
            b.base == (BaseCommandNode { redirect: target, modifier, forks, ..self.base }),
    {
        LiteralArgumentBuilder {
            literal: self.literal,
            base: BaseCommandNode { redirect: target, modifier, forks, ..self.base },
        }
    }

    /// Redirects to `target`, with the source unchanged.
    pub fn redirect(self, target: usize) -> (b: Self)
        ensures
            b.literal == self.literal,
            b.base == (BaseCommandNode {
                redirect: Some(target),
                modifier: None,
                forks: false,
                ..self.base
            }),
    {
        self.forward(Some(target), None, false)
    }

    /// Forks to `target`, with the sources that `modifier` derives.
    pub fn fork(self, target: usize, modifier: u32) -> (b: Self)
        ensures
            b.literal == self.literal,
            b.base == (BaseCommandNode {
                redirect: Some(target),
                modifier: Some(modifier),
                forks: true,
                ..self.base
            }),
    {
        self.forward(Some(target), Some(modifier), true)
    }
}

impl<T> RequiredArgumentBuilder<T> {
    /// A builder of an argument node named `name` that parses with `type_`.
    pub fn argument(name: &str, type_: T) -> (b: Self)
        ensures
            b.name@ == name@,
            b.type_ == type_,
            b.custom_suggestions is None,
            b.base.children@.len() == 0,
            b.base.ordered@.len() == 0,
            b.base.command is None,
            b.base.requirement is None,
            b.base.redirect is None,
            b.base.modifier is None,
            !b.base.forks,
    {
        RequiredArgumentBuilder {
            name: to_chars(name),
            type_,
            custom_suggestions: None,
            base: BaseCommandNode::new(),
        }
    }

    /// Sets the executor.
    pub fn executes(self, command: u32) -> (b: Self)
        ensures
            b.name == self.name,
            b.type_ == self.type_,
            b.custom_suggestions == self.custom_suggestions,
            b.base == (BaseCommandNode { command: Some(command), ..self.base }),
    {
        RequiredArgumentBuilder {
            name: self.name,
            type_: self.type_,
            custom_suggestions: self.custom_suggestions,
            base: BaseCommandNode { command: Some(command), ..self.base },
        }
    }

    /// Sets the requirement.
    pub fn requiring(self, requirement: u32) -> (b: Self)
        ensures
            b.name == self.name,
            b.type_ == self.type_,
            b.custom_suggestions == self.custom_suggestions,
            b.base == (BaseCommandNode { requirement: Some(requirement), ..self.base }),
    {
        RequiredArgumentBuilder {
            name: self.name,
            type_: self.type_,
            custom_suggestions: self.custom_suggestions,
            base: BaseCommandNode { requirement: Some(requirement), ..self.base },
        }
    }

    /// Sets the custom suggestion provider.
    pub fn suggests(self, provider: Option<u32>) -> (b: Self)
        ensures
            b.name == self.name,
            b.type_ == self.type_,
            b.custom_suggestions == provider,
            b.base == self.base,
    {
        RequiredArgumentBuilder {
            name: self.name,
            type_: self.type_,
            custom_suggestions: provider,
            base: self.base,
        }
    }

    /// Sets the redirect: its target, its modifier and whether it forks.
    pub fn forward(self, target: Option<usize>, modifier: Option<u32>, forks: bool) -> (b: Self)
        ensures
            b.name == self.name,
            b.type_ == self.type_,
            b.custom_suggestions == self.custom_suggestions,
            b.base == (BaseCommandNode { redirect: target, modifier, forks, ..self.base }),
    {
        RequiredArgumentBuilder {
            name: self.name,
            type_: self.type_,
            custom_suggestions: self.custom_suggestions,
            base: BaseCommandNode { redirect: target, modifier, forks, ..self.base },
        }
    }
}

impl RootCommandNode {
    pub fn new() -> (n: Self)
        ensures
            n.base.children@.len() == 0,
            n.base.ordered@.len() == 0,
            n.base.command is None,
            n.base.requirement is None,
            n.base.redirect is None,
            n.base.modifier is None,
            !n.base.forks,
    {
        RootCommandNode { base: BaseCommandNode::new() }
    }

    /// The root has no name.
    pub fn name(&self) -> (s: String)
        ensures
            s@.len() == 0,
    {
        String::new()
    }

    /// The root matches without consuming anything.
    pub fn parse(
        &self,
        reader: &mut StringReader,
        context_builder: &mut CommandContextBuilder,
    ) -> (r: Result<(), CommandSyntaxException>)
        ensures
            r is Ok,
            *final(reader) == *old(reader),
            *final(context_builder) == *old(context_builder),
    {
        Ok(())
    }

    /// The root offers no suggestions.
    pub fn list_suggestions(&self, context: &CommandContext, builder: &mut SuggestionsBuilder) -> (r:
        Result<Suggestions, CommandSyntaxException>)
        ensures
            r matches Ok(out) && arranged(out@, Seq::empty()),
            *final(builder) == *old(builder),
    {
        Ok(Suggestions::empty())
    }

    /// No input is valid for the root.
    pub fn is_valid_input(&self, input: &str) -> (r: bool)
        ensures
            !r,
    {
        false
    }

    /// The root has no usage text.
    pub fn usage_text(&self) -> (s: String)
        ensures
            s@.len() == 0,
    {
        String::new()
    }

    /// The root cannot be turned into a builder: this fails, always.
    pub fn create_builder(&self) -> (r: Result<LiteralArgumentBuilder, CommandSyntaxException>)
        ensures
            r matches Err(e) && e@ == (ExceptionView {
                kind: BuiltInExceptions::RootIntoBuilder,
                input: Seq::empty(),
                cursor: 0,
            }),
    {
        let input: Vec<char> = Vec::new();
        Err(CommandSyntaxException::new(BuiltInExceptions::RootIntoBuilder, &input, 0))
    }

    /// The root has no examples.
    pub fn get_examples(&self) -> (out: Vec<String>)
        ensures
            out@.len() == 0,
    {
        Vec::new()
    }

    /// How the root is displayed.
    pub fn describe(&self) -> (s: String)
        ensures
            s@ == "<root>"@,
    {
        "<root>".to_owned()
    }
}

impl LiteralCommandNode {
    /// What `parse` gives with the cursor at `cursor`.
    pub open spec fn outcome(&self, id: usize, input: Seq<char>, cursor: int, context: ContextView) -> NodeOutcome {
        match literal_end(self.literal@, input, cursor) {
            Some(end) => Ok(
                (
                    context.add_node(
                        id,
                        StringRange { start: cursor as usize, end: end as usize },
                        self.base.modifier,
                        self.base.forks,
                    ),
                    end,
                ),
            ),
            None => Err((BuiltInExceptions::LiteralIncorrect, cursor)),
        }
    }

    pub fn get_literal(&self) -> (s: String)
        ensures
            s@ == self.literal@,
    {
        to_text(&self.literal)
    }

    pub fn name(&self) -> (s: String)
        ensures
            s@ == self.literal@,
    {
        to_text(&self.literal)
    }

    /// Where a match of the literal at the reader's cursor ends, if the
    /// literal stands there.
    fn matched_end(&self, reader: &StringReader) -> (r: Option<usize>)
        ensures
            match r {
                Some(end) => literal_end(self.literal@, reader@.input, reader@.cursor) == Some(
                    end as int,
                ),
                None => literal_end(self.literal@, reader@.input, reader@.cursor) is None,
            },
    {
        proof {
            use_type_invariant(reader);
        }
        let start: usize = reader.get_cursor();
        let input = reader.chars();
        let n: usize = self.literal.len();
        if n > input.len() - start {
            return None;
        }
        let end: usize = start + n;
        let mut i: usize = 0;
        while i < n
            invariant
                i <= n,
                n == self.literal.len(),
                start + n == end,
                end <= input.len(),
                start == reader@.cursor,
                input@ == reader@.input,
                forall|k: int| 0 <= k < i ==> input@[start + k] == self.literal@[k],
            decreases n - i,
        {
            if input[start + i] != self.literal[i] {
                assert(input@.subrange(start as int, end as int)[i as int] != self.literal@[i as int]);
                return None;
            }
            i = i + 1;
        }
        assert(input@.subrange(start as int, end as int) =~= self.literal@);
        if end == input.len() || input[end] == ARGUMENT_SEPARATOR {
            Some(end)
        } else {
            None
        }
    }

    /// Matches the literal at the cursor and records this node, `id`, in
    /// the context.
    pub fn parse(
        &self,
        id: usize,
        reader: &mut StringReader,
        context_builder: &mut CommandContextBuilder,
    ) -> (r: Result<(), CommandSyntaxException>)
        ensures
            final(reader)@.input == old(reader)@.input,
            parse_agrees(
                self.outcome(id, old(reader)@.input, old(reader)@.cursor, old(context_builder)@),
                old(reader)@.input,
                old(context_builder)@,
                r,
                final(reader)@.cursor,
                final(context_builder)@,
            ),
    {
        let start: usize = reader.get_cursor();
        match self.matched_end(reader) {
            Some(end) => {
                reader.set_cursor(end);
                context_builder.with_node(
                    id,
                    StringRange::new(start, end),
                    self.base.modifier,
                    self.base.forks,
                );
                Ok(())
            },
            None => Err(
                CommandSyntaxException::new(
                    BuiltInExceptions::LiteralIncorrect,
                    reader.chars(),
                    start,
                ),
            ),
        }
    }

    /// What `list_suggestions` states: where what has been typed starts
    /// the literal, without regard to case, the literal is suggested to the
    /// builder and all that the builder then holds is returned, put in
    /// order; otherwise nothing is returned and the builder is as it was.
    pub open spec fn lists(
        &self,
        before: BuilderView,
        after: BuilderView,
        r: Result<Suggestions, CommandSyntaxException>,
    ) -> bool {
        if starts_alike(self.literal@, typed_of(before)) {
            after == candidate_added(before, self.literal@, None) && (r matches Ok(out)
                && arranged(out@, after.pending))
        } else {
            after == before && (r matches Ok(out) && arranged(out@, Seq::empty()))
        }
    }

    /// Suggests the literal when what has been typed starts it, without
    /// regard to case; nothing otherwise. This does not fail.
    pub fn list_suggestions(&self, context: &CommandContext, builder: &mut SuggestionsBuilder) -> (r:
        Result<Suggestions, CommandSyntaxException>)
        ensures
            self.lists(old(builder)@, final(builder)@, r),
    {
        let typed = builder.remaining();
        if !text_starts_alike(&self.literal, &typed) {
            return Ok(Suggestions::empty());
        }
        builder.suggest_chars(&self.literal);
        Ok(builder.build())
    }

    /// Whether `input` is this literal, alone or followed by one separator.
    pub fn is_valid_input(&self, input: &str) -> (r: bool)
        ensures
            r == match literal_end(self.literal@, input@, 0) {
                Some(end) => consumed(input@, end),
                None => false,
            },
    {
        let reader = StringReader::new(input);
        match self.matched_end(&reader) {
            Some(end) => {
                let chars = reader.chars();
                end == chars.len() || (end + 1 == chars.len() && chars[end] == ARGUMENT_SEPARATOR)
            },
            None => false,
        }
    }

    /// The literal itself.
    pub fn usage_text(&self) -> (s: String)
        ensures
            s@ == self.literal@,
    {
        to_text(&self.literal)
    }

    /// A builder with this node's settings, without its children.
    pub fn create_builder(&self) -> (b: LiteralArgumentBuilder)
        ensures
            b.literal@ == self.literal@,
            b.base.children@.len() == 0,
            b.base.ordered@.len() == 0,
            b.base.command == self.base.command,
            b.base.requirement == self.base.requirement,
            b.base.redirect == self.base.redirect,
            b.base.modifier == self.base.modifier,
            b.base.forks == self.base.forks,
    {
        LiteralArgumentBuilder { literal: copy_text(&self.literal), base: self.base.settings() }
    }

    /// The literal is its own one example.
    pub fn get_examples(&self) -> (out: Vec<String>)
        ensures
            out@.len() == 1,
            out@[0]@ == self.literal@,
    {
        let mut out: Vec<String> = Vec::new();
        out.push(to_text(&self.literal));
        out
    }

    /// How the node is displayed.
    pub fn describe(&self) -> (s: String)
        ensures
            s@ == "<literal "@ + self.literal@ + ">"@,
    {
        let mut out = to_chars("<literal ");
        let mut i: usize = 0;
        let ghost head = out@;
        while i < self.literal.len()
            invariant
                i <= self.literal.len(),
                out@ == head + self.literal@.subrange(0, i as int),
            decreases self.literal.len() - i,
        {
            out.push(self.literal[i]);
            i = i + 1;
        }
        assert(self.literal@.subrange(0, i as int) == self.literal@);
        out.push('>');
        proof {
            reveal_strlit(">");
            assert(">"@ =~= seq!['>']);
            assert(out@ =~= "<literal "@ + self.literal@ + ">"@);
        }
        to_text(&out)
    }
}

impl<T: ArgumentType> ArgumentCommandNode<T> {
    /// What `parse` gives with the cursor at `cursor`.
    pub open spec fn outcome(&self, id: usize, input: Seq<char>, cursor: int, context: ContextView) -> NodeOutcome {
        match self.type_.spec_parse(input, cursor) {
            Ok((value, end)) => {
                let range = StringRange { start: cursor as usize, end: end as usize };
                Ok(
                    (
                        context.put_argument(
                            self.name@,
                            ParsedArgumentView { range, result: value },
                        ).add_node(id, range, self.base.modifier, self.base.forks),
                        end,
                    ),
                )
            },
            Err(e) => Err(e),
        }
    }

    /// `<`, the name, `>`.
    pub open spec fn spec_usage(&self) -> Seq<char> {
        seq![USAGE_ARGUMENT_OPEN] + self.name@ + seq![USAGE_ARGUMENT_CLOSE]
    }

    pub fn get_type(&self) -> (t: &T)
        ensures
            *t == self.type_,
    {
        &self.type_
    }

    /// The handle of the custom suggestion provider; `None` where the
    /// type's own suggestions are used.
    pub fn custom_suggestions(&self) -> (p: Option<u32>)
        ensures
            p == self.custom_suggestions,
    {
        self.custom_suggestions
    }

    pub fn name(&self) -> (s: String)
        ensures
            s@ == self.name@,
    {
        to_text(&self.name)
    }

    /// Parses a value with the type and records it under this node's name,
    /// and this node, `id`, in the context. Where the type fails, its
    /// failure is handed on and the cursor stays where the type left it.
    pub fn parse(
        &self,
        id: usize,
        reader: &mut StringReader,
        context_builder: &mut CommandContextBuilder,
    ) -> (r: Result<(), CommandSyntaxException>)
        ensures
            final(reader)@.input == old(reader)@.input,
            parse_agrees(
                self.outcome(id, old(reader)@.input, old(reader)@.cursor, old(context_builder)@),
                old(reader)@.input,
                old(context_builder)@,
                r,
                final(reader)@.cursor,
                final(context_builder)@,
            ),
    {
        let start: usize = reader.get_cursor();
        let result = self.type_.parse(reader)?;
        let parsed = ParsedArgument::new(start, reader.get_cursor(), result);
        let range = parsed.get_range();
        context_builder.with_argument(&self.name, parsed);
        context_builder.with_node(id, range, self.base.modifier, self.base.forks);
        Ok(())
    }

    /// What `list_suggestions` states: where the node has a provider, the
    /// result is what `ask` gave for it, the context and a copy of the
    /// builder, and the builder is as it was; else what the type's own
    /// `list_suggestions` states.
    pub open spec fn lists<P>(
        &self,
        ask: &P,
        context: &CommandContext,
        before: BuilderView,
        after: BuilderView,
        r: Result<Suggestions, CommandSyntaxException>,
    ) -> bool where
        P: Fn(u32, &CommandContext, SuggestionsBuilder) -> Result<
            Suggestions,
            CommandSyntaxException,
        >,
     {
        match self.custom_suggestions {
            Some(p) => asked(ask, p, context, before, r) && after == before,
            None => suggested(
                self.type_.spec_candidates(context@, typed_of(before)),
                before,
                after,
                r,
            ),
        }
    }

    /// The suggestions of this node. Where the node has a custom provider,
    /// `ask`, the embedder's way to call the provider behind a handle, is
    /// asked, and what it returns is returned unchanged, a failure too;
    /// else the type is asked, and what it returns is returned unchanged.
    pub fn list_suggestions<P>(
        &self,
        context: &CommandContext,
        builder: &mut SuggestionsBuilder,
        ask: &P,
    ) -> (r: Result<Suggestions, CommandSyntaxException>) where
        P: Fn(u32, &CommandContext, SuggestionsBuilder) -> Result<
            Suggestions,
            CommandSyntaxException,
        >,

        requires
            forall|p: u32, c: &CommandContext, b: SuggestionsBuilder| call_requires(ask, (p, c, b)),
        ensures
            self.lists(ask, context, old(builder)@, final(builder)@, r),
    {
        match self.custom_suggestions {
            Some(p) => {
                let given = builder.duplicate();
                let r = ask(p, context, given);
                assert(given@ == builder@ && call_ensures(ask, (p, context, given), r));
                r
            },
            None => self.type_.list_suggestions(context, builder),
        }
    }

    /// Whether the type parses `input` from its start and takes all of it,
    /// or all but one trailing separator.
    pub fn is_valid_input(&self, input: &str) -> (r: bool)
        ensures
            r == match self.type_.spec_parse(input@, 0) {
                Ok((_, end)) => consumed(input@, end),
                Err(_) => false,
            },
    {
        let mut reader = StringReader::new(input);
        let result = self.type_.parse(&mut reader);
        if result.is_ok() {
            proof {
                use_type_invariant(&reader);
            }
            let end: usize = reader.get_cursor();
            let chars = reader.chars();
            end == chars.len() || (end + 1 == chars.len() && chars[end] == ARGUMENT_SEPARATOR)
        } else {
            false
        }
    }

    /// The name between angle brackets.
    pub fn usage_text(&self) -> (s: String)
        ensures
            s@ == self.spec_usage(),
    {
        let mut out: Vec<char> = Vec::new();
        out.push(USAGE_ARGUMENT_OPEN);
        let mut i: usize = 0;
        while i < self.name.len()
            invariant
                i <= self.name.len(),
                out@ == seq![USAGE_ARGUMENT_OPEN] + self.name@.subrange(0, i as int),
            decreases self.name.len() - i,
        {
            out.push(self.name[i]);
            i = i + 1;
        }
        assert(self.name@.subrange(0, i as int) == self.name@);
        out.push(USAGE_ARGUMENT_CLOSE);
        assert(out@ =~= self.spec_usage());
        to_text(&out)
    }

    /// The examples of the type.
    pub fn get_examples(&self) -> (out: Vec<String>)
        ensures
            texts_of(out@) == self.type_.spec_examples(),
    {
        self.type_.get_examples()
    }

    /// `<argument `, the name, `: `, the name of the type, `>`.
    pub open spec fn spec_describe(&self) -> Seq<char> {
        "<argument "@ + self.name@ + seq![':', ' '] + self.type_.spec_describe() + seq!['>']
    }

    /// How the node is displayed: its name and the name of its type.
    pub fn describe(&self) -> (s: String)
        ensures
            s@ == self.spec_describe(),
    {
        let kind = self.type_.describe();
        let mut out = to_chars("<argument ");
        let ghost head = out@;
        let mut i: usize = 0;
        while i < self.name.len()
            invariant
                i <= self.name.len(),
                out@ == head + self.name@.subrange(0, i as int),
            decreases self.name.len() - i,
        {
            out.push(self.name[i]);
            i = i + 1;
        }
        assert(self.name@.subrange(0, i as int) =~= self.name@);
        out.push(':');
        out.push(' ');
        let kind = to_chars(kind.as_str());
        let ghost middle = out@;
        assert(middle =~= head + self.name@ + seq![':', ' ']);
        let mut j: usize = 0;
        while j < kind.len()
            invariant
                j <= kind.len(),
                out@ == middle + kind@.subrange(0, j as int),
            decreases kind.len() - j,
        {
            out.push(kind[j]);
            j = j + 1;
        }
        assert(kind@.subrange(0, j as int) =~= kind@);
        out.push('>');
        assert(out@ =~= self.spec_describe());
        to_text(&out)
    }
}

impl<T: ArgumentType + Copy> ArgumentCommandNode<T> {
    /// A builder with this node's settings, without its children.
    pub fn create_builder(&self) -> (b: RequiredArgumentBuilder<T>)
        ensures
            b.name@ == self.name@,
            b.type_ == self.type_,
            b.custom_suggestions == self.custom_suggestions,
            b.base.children@.len() == 0,
            b.base.ordered@.len() == 0,
            b.base.command == self.base.command,
            b.base.requirement == self.base.requirement,
            b.base.redirect == self.base.redirect,
            b.base.modifier == self.base.modifier,
            b.base.forks == self.base.forks,
    {
        RequiredArgumentBuilder {
            name: copy_text(&self.name),
            type_: self.type_,
            custom_suggestions: self.custom_suggestions,
            base: self.base.settings(),
        }
    }
}

/// A node of either kind, or the root.
#[derive(Debug)]
pub enum CommandNode<T> {
    Root(RootCommandNode),
    Literal(LiteralCommandNode),
    Argument(ArgumentCommandNode<T>),
}

impl<T: ArgumentType> CommandNode<T> {
    pub open spec fn spec_base(&self) -> BaseCommandNode {
        match self {
            CommandNode::Root(n) => n.base,
            CommandNode::Literal(n) => n.base,
            CommandNode::Argument(n) => n.base,
        }
    }

    /// The name: empty for the root, the token of a literal, the name of
    /// an argument.
    pub open spec fn spec_name(&self) -> Seq<char> {
        match self {
            CommandNode::Root(_) => Seq::empty(),
            CommandNode::Literal(n) => n.literal@,
            CommandNode::Argument(n) => n.name@,
        }
    }

    /// The syntax fragment: the token of a literal, the name of an argument
    /// between angle brackets, nothing for the root.
    pub open spec fn spec_usage(&self) -> Seq<char> {
        match self {
            CommandNode::Root(_) => Seq::empty(),
            CommandNode::Literal(n) => n.literal@,
            CommandNode::Argument(n) => n.spec_usage(),
        }
    }

    /// What `parse` gives for this node, `id`, with the cursor at `cursor`.
    pub open spec fn outcome(&self, id: usize, input: Seq<char>, cursor: int, context: ContextView) -> NodeOutcome {
        match self {
            CommandNode::Root(_) => Ok((context, cursor)),
            CommandNode::Literal(n) => n.outcome(id, input, cursor, context),
            CommandNode::Argument(n) => n.outcome(id, input, cursor, context),
        }
    }

    /// Whether `input` is valid for this node by itself.
    pub open spec fn valid_input(&self, input: Seq<char>) -> bool {
        match self {
            CommandNode::Root(_) => false,
            CommandNode::Literal(n) => match literal_end(n.literal@, input, 0) {
                Some(end) => consumed(input, end),
                None => false,
            },
            CommandNode::Argument(n) => match n.type_.spec_parse(input, 0) {
                Ok((_, end)) => consumed(input, end),
                Err(_) => false,
            },
        }
    }

    /// A parse that succeeds ends at or after the offset it started at,
    /// within the input.
    pub proof fn lemma_outcome_advances(&self, id: usize, input: Seq<char>, cursor: int, context: ContextView)
        requires
            0 <= cursor <= input.len(),
        ensures
            self.outcome(id, input, cursor, context) matches Ok((_, end)) ==> cursor <= end
                <= input.len(),
    {
        match self {
            CommandNode::Argument(n) => {
                n.type_.lemma_parse_advances(input, cursor);
            },
            _ => {},
        }
    }

    pub fn base(&self) -> (b: &BaseCommandNode)
        ensures
            *b == self.spec_base(),
    {
        match self {
            CommandNode::Root(n) => &n.base,
            CommandNode::Literal(n) => &n.base,
            CommandNode::Argument(n) => &n.base,
        }
    }

    pub fn is_root(&self) -> (r: bool)
        ensures
            r == (self is Root),
    {
        match self {
            CommandNode::Root(_) => true,
            _ => false,
        }
    }

    pub fn is_literal(&self) -> (r: bool)
        ensures
            r == (self is Literal),
    {
        match self {
            CommandNode::Literal(_) => true,
            _ => false,
        }
    }

    pub fn is_argument(&self) -> (r: bool)
        ensures
            r == (self is Argument),
    {
        match self {
            CommandNode::Argument(_) => true,
            _ => false,
        }
    }

    pub fn name(&self) -> (s: String)
        ensures
            s@ == self.spec_name(),
    {
        match self {
            CommandNode::Root(n) => n.name(),
            CommandNode::Literal(n) => n.name(),
            CommandNode::Argument(n) => n.name(),
        }
    }

    /// The name, as characters.
    pub fn name_chars(&self) -> (s: Vec<char>)
        ensures
            s@ == self.spec_name(),
    {
        match self {
            CommandNode::Root(_) => Vec::new(),
            CommandNode::Literal(n) => copy_text(&n.literal),
            CommandNode::Argument(n) => copy_text(&n.name),
        }
    }

    pub fn usage_text(&self) -> (s: String)
        ensures
            s@ == self.spec_usage(),
    {
        match self {
            CommandNode::Root(n) => n.usage_text(),
            CommandNode::Literal(n) => n.usage_text(),
            CommandNode::Argument(n) => n.usage_text(),
        }
    }

    /// Tries to consume what this node matches at the cursor. On success
    /// the context has what the node recorded and the cursor is just past
    /// what it consumed; on failure the cursor is where the failure
    /// occurred and the context is as it was.
    pub fn parse(
        &self,
        id: usize,
        reader: &mut StringReader,
        context_builder: &mut CommandContextBuilder,
    ) -> (r: Result<(), CommandSyntaxException>)
        ensures
            final(reader)@.input == old(reader)@.input,
            parse_agrees(
                self.outcome(id, old(reader)@.input, old(reader)@.cursor, old(context_builder)@),
                old(reader)@.input,
                old(context_builder)@,
                r,
                final(reader)@.cursor,
                final(context_builder)@,
            ),
    {
        match self {
            CommandNode::Root(n) => n.parse(reader, context_builder),
            CommandNode::Literal(n) => n.parse(id, reader, context_builder),
            CommandNode::Argument(n) => n.parse(id, reader, context_builder),
        }
    }

    pub fn is_valid_input(&self, input: &str) -> (r: bool)
        ensures
            r == self.valid_input(input@),
    {
        match self {
            CommandNode::Root(n) => n.is_valid_input(input),
            CommandNode::Literal(n) => n.is_valid_input(input),
            CommandNode::Argument(n) => n.is_valid_input(input),
        }
    }

    /// The sample inputs: none for the root, the token of a literal,
    /// those of the type of an argument.
    pub open spec fn spec_examples(&self) -> Seq<Seq<char>> {
        match self {
            CommandNode::Root(_) => Seq::empty(),
            CommandNode::Literal(n) => seq![n.literal@],
            CommandNode::Argument(n) => n.type_.spec_examples(),
        }
    }

    /// How the node is displayed.
    pub open spec fn spec_describe(&self) -> Seq<char> {
        match self {
            CommandNode::Root(_) => "<root>"@,
            CommandNode::Literal(n) => "<literal "@ + n.literal@ + ">"@,
            CommandNode::Argument(n) => n.spec_describe(),
        }
    }

    pub fn get_examples(&self) -> (out: Vec<String>)
        ensures
            texts_of(out@) == self.spec_examples(),
    {
        match self {
            CommandNode::Root(n) => {
                let out = n.get_examples();
                assert(texts_of(out@) =~= Seq::empty());
                out
            },
            CommandNode::Literal(n) => {
                let out = n.get_examples();
                assert(texts_of(out@) =~= seq![n.literal@]);
                out
            },
            CommandNode::Argument(n) => n.get_examples(),
        }
    }

    pub fn describe(&self) -> (out: String)
        ensures
            out@ == self.spec_describe(),
    {
        match self {
            CommandNode::Root(n) => n.describe(),
            CommandNode::Literal(n) => n.describe(),
            CommandNode::Argument(n) => n.describe(),
        }
    }

    /// The handle of the node's custom suggestion provider, if it has one.
    pub open spec fn provider(&self) -> Option<u32> {
        match self {
            CommandNode::Argument(n) => n.custom_suggestions,
            _ => None,
        }
    }

    /// What the node itself offers for `typed`, in the context `context`:
    /// a literal itself, where `typed` starts it without regard to case and
    /// is not all of it; an argument what its type suggests, or the kind
    /// of the type's failure; the root nothing.
    pub open spec fn offers(&self, context: CommandContextView, typed: Seq<char>) -> Result<
        Seq<Candidate>,
        BuiltInExceptions,
    > {
        match self {
            CommandNode::Root(_) => Ok(Seq::empty()),
            CommandNode::Literal(n) => Ok(
                if starts_alike(n.literal@, typed) && n.literal@ != typed {
                    seq![(n.literal@, None::<Seq<char>>)]
                } else {
                    Seq::empty()
                },
            ),
            CommandNode::Argument(n) => n.type_.spec_candidates(context, typed),
        }
    }

    /// What `list_suggestions` states: see the three kinds.
    pub open spec fn lists<P>(
        &self,
        ask: &P,
        context: &CommandContext,
        before: BuilderView,
        after: BuilderView,
        r: Result<Suggestions, CommandSyntaxException>,
    ) -> bool where
        P: Fn(u32, &CommandContext, SuggestionsBuilder) -> Result<
            Suggestions,
            CommandSyntaxException,
        >,
     {
        match self {
            CommandNode::Root(_) => after == before && (r matches Ok(out) && arranged(
                out@,
                Seq::empty(),
            )),
            CommandNode::Literal(n) => n.lists(before, after, r),
            CommandNode::Argument(n) => n.lists(ask, context, before, after, r),
        }
    }

    /// With a builder that holds no candidates yet, a node without a
    /// provider returns what it offers, for the builder's range, put in
    /// order; or the failure of its type.
    pub proof fn lemma_lists_fresh<P>(
        &self,
        ask: &P,
        context: &CommandContext,
        before: BuilderView,
        after: BuilderView,
        r: Result<Suggestions, CommandSyntaxException>,
    ) where
        P: Fn(u32, &CommandContext, SuggestionsBuilder) -> Result<
            Suggestions,
            CommandSyntaxException,
        >,

        requires
            self.lists(ask, context, before, after, r),
            self.provider() is None,
            before.pending.len() == 0,
        ensures
            match self.offers(context@, typed_of(before)) {
                Ok(texts) => r matches Ok(out) && arranged(out@, ranged(texts, range_of(before))),
                Err(kind) => r matches Err(e) && e@ == (ExceptionView {
                    kind,
                    input: before.input,
                    cursor: before.start,
                }),
            },
    {
        match self.offers(context@, typed_of(before)) {
            Ok(texts) => {
                match self {
                    CommandNode::Root(_) => {
                        assert(ranged(texts, range_of(before)) =~= Seq::empty());
                    },
                    CommandNode::Literal(n) => {
                        if starts_alike(n.literal@, typed_of(before)) {
                            assert(after.pending =~= ranged(texts, range_of(before)));
                        } else {
                            assert(ranged(texts, range_of(before)) =~= Seq::empty());
                        }
                    },
                    CommandNode::Argument(n) => {
                        assert(after.pending =~= ranged(texts, range_of(before)));
                    },
                }
            },
            Err(_) => {},
        }
    }

    /// The suggestions of this node; see the three kinds. `ask` is the
    /// embedder's way to call the suggestion provider behind a handle.
    pub fn list_suggestions<P>(
        &self,
        context: &CommandContext,
        builder: &mut SuggestionsBuilder,
        ask: &P,
    ) -> (r: Result<Suggestions, CommandSyntaxException>) where
        P: Fn(u32, &CommandContext, SuggestionsBuilder) -> Result<
            Suggestions,
            CommandSyntaxException,
        >,

        requires
            forall|p: u32, c: &CommandContext, b: SuggestionsBuilder| call_requires(ask, (p, c, b)),
        ensures
            self.lists(ask, context, old(builder)@, final(builder)@, r),
    {
        match self {
            CommandNode::Root(n) => n.list_suggestions(context, builder),
            CommandNode::Literal(n) => n.list_suggestions(context, builder),
            CommandNode::Argument(n) => n.list_suggestions(context, builder, ask),
        }
    }
}

/// `r` is what `ask` gave for the provider `p`, the context `context` and a
/// builder with the view `before`.
pub open spec fn asked<P>(
    ask: &P,
    p: u32,
    context: &CommandContext,
    before: BuilderView,
    r: Result<Suggestions, CommandSyntaxException>,
) -> bool where
    P: Fn(u32, &CommandContext, SuggestionsBuilder) -> Result<Suggestions, CommandSyntaxException>,
 {
    exists|given: SuggestionsBuilder| given@ == before && call_ensures(ask, (p, context, given), r)
}

/// The order in which parsing tries two siblings: a literal before an
/// argument, and two of a kind by name.
pub open spec fn tried_before<T: ArgumentType>(a: CommandNode<T>, b: CommandNode<T>) -> bool {
    if (a is Argument) != (b is Argument) {
        b is Argument
    } else {
        lex_less(a.spec_name(), b.spec_name(), false)
    }
}

/// What has to hold of the node at `i` in a tree: it is the root exactly
/// at offset 0; its children come after it in the list and have names of
/// their own; the trial order holds the same children, literals first and
/// each kind by name; a redirect has a target in the list and no children
/// beside it; the root has neither executor nor redirect.
pub open spec fn node_wf<T: ArgumentType>(nodes: Seq<CommandNode<T>>, i: int) -> bool {
    let base = nodes[i].spec_base();
    &&& (i == 0) == (nodes[i] is Root)
    &&& base.children@.len() == base.ordered@.len()
    &&& forall|k: int|
        0 <= k < base.children@.len() ==> i < #[trigger] base.children@[k] < nodes.len()
    &&& forall|k: int, l: int|
        0 <= k < l < base.children@.len() ==> nodes[base.children@[k] as int].spec_name()
            != nodes[base.children@[l] as int].spec_name()
    &&& forall|k: int|
        0 <= k < base.ordered@.len() ==> base.children@.contains(#[trigger] base.ordered@[k])
    &&& forall|k: int|
        0 <= k < base.children@.len() ==> base.ordered@.contains(#[trigger] base.children@[k])
    &&& forall|k: int, l: int|
        0 <= k < l < base.ordered@.len() ==> tried_before(
            nodes[base.ordered@[k] as int],
            nodes[base.ordered@[l] as int],
        )
    &&& match base.redirect {
        Some(t) => t < nodes.len() && base.children@.len() == 0,
        None => true,
    }
    &&& nodes[i] is Root ==> base.command is None && base.redirect is None
}

/// A well-formed tree: a root at offset 0 and every node well-formed.
pub open spec fn tree_wf<T: ArgumentType>(nodes: Seq<CommandNode<T>>) -> bool {
    &&& nodes.len() > 0
    &&& forall|i: int| 0 <= i < nodes.len() ==> node_wf(nodes, i)
}

/// `tried_before` orders nodes of different names strictly and totally.
pub proof fn lemma_tried_before_order<T: ArgumentType>(
    a: CommandNode<T>,
    b: CommandNode<T>,
    c: CommandNode<T>,
)
    ensures
        !tried_before(a, a),
        tried_before(a, b) ==> !tried_before(b, a),
        tried_before(a, b) && tried_before(b, c) ==> tried_before(a, c),
        a.spec_name() != b.spec_name() ==> tried_before(a, b) || tried_before(b, a),
{
    crate::text::lemma_lex_order(a.spec_name(), b.spec_name(), c.spec_name(), false);
    crate::text::lemma_lex_order(b.spec_name(), a.spec_name(), c.spec_name(), false);
    crate::text::lemma_alike_exact(a.spec_name(), b.spec_name());
}

/// The node that `builder` describes: with its settings and no children.
pub open spec fn built_from<T: ArgumentType>(builder: ArgumentBuilder<T>, node: CommandNode<T>) -> bool {
    &&& node.spec_base().children@.len() == 0
    &&& node.spec_base().ordered@.len() == 0
    &&& match builder {
        ArgumentBuilder::Literal(b) => {
            &&& node matches CommandNode::Literal(n)
            &&& n.literal@ == b.literal@
            &&& same_settings(n.base, b.base)
        },
        ArgumentBuilder::Argument(b) => {
            &&& node matches CommandNode::Argument(n)
            &&& n.name@ == b.name@
            &&& n.type_ == b.type_
            &&& n.custom_suggestions == b.custom_suggestions
            &&& same_settings(n.base, b.base)
        },
    }
}

/// Two bases agree in all but their children.
pub open spec fn same_settings(a: BaseCommandNode, b: BaseCommandNode) -> bool {
    &&& a.command == b.command
    &&& a.requirement == b.requirement
    &&& a.redirect == b.redirect
    &&& a.modifier == b.modifier
    &&& a.forks == b.forks
}

/// Two nodes are of one kind, with the same name, type and settings.
pub open spec fn same_node<T: ArgumentType>(a: CommandNode<T>, b: CommandNode<T>) -> bool {
    &&& same_settings(a.spec_base(), b.spec_base())
    &&& match (a, b) {
        (CommandNode::Root(_), CommandNode::Root(_)) => true,
        (CommandNode::Literal(x), CommandNode::Literal(y)) => x.literal@ == y.literal@,
        (CommandNode::Argument(x), CommandNode::Argument(y)) => x.name@ == y.name@ && x.type_
            == y.type_ && x.custom_suggestions == y.custom_suggestions,
        _ => false,
    }
}

impl<T: ArgumentType> ArgumentBuilder<T> {
    pub open spec fn spec_name(&self) -> Seq<char> {
        match self {
            ArgumentBuilder::Literal(b) => b.literal@,
            ArgumentBuilder::Argument(b) => b.name@,
        }
    }

    pub open spec fn spec_base(&self) -> BaseCommandNode {
        match self {
            ArgumentBuilder::Literal(b) => b.base,
            ArgumentBuilder::Argument(b) => b.base,
        }
    }

    pub fn base(&self) -> (b: &BaseCommandNode)
        ensures
            *b == self.spec_base(),
    {
        match self {
            ArgumentBuilder::Literal(b) => &b.base,
            ArgumentBuilder::Argument(b) => &b.base,
        }
    }

    /// The name, as characters.
    pub fn name_chars(&self) -> (s: Vec<char>)
        ensures
            s@ == self.spec_name(),
    {
        match self {
            ArgumentBuilder::Literal(b) => copy_text(&b.literal),
            ArgumentBuilder::Argument(b) => copy_text(&b.name),
        }
    }

    /// The node that this builder describes.
    pub fn build(self) -> (node: CommandNode<T>)
        ensures
            built_from(self, node),
            node.spec_name() == self.spec_name(),
    {
        match self {
            ArgumentBuilder::Literal(b) => CommandNode::Literal(
                LiteralCommandNode { literal: b.literal, base: b.base.settings() },
            ),
            ArgumentBuilder::Argument(b) => CommandNode::Argument(
                ArgumentCommandNode {
                    name: b.name,
                    type_: b.type_,
                    custom_suggestions: b.custom_suggestions,
                    base: b.base.settings(),
                },
            ),
        }
    }
}

impl<T: ArgumentType> CommandNode<T> {
    /// Whether parsing tries this node before `other`.
    pub fn comes_first(&self, other: &CommandNode<T>) -> (r: bool)
        ensures
            r == tried_before(*self, *other),
    {
        if self.is_argument() != other.is_argument() {
            other.is_argument()
        } else {
            crate::text::text_precedes(&self.name_chars(), &other.name_chars(), false)
        }
    }

    /// This node with one more child: `id`, last among the children and at
    /// `place` in trial order.
    pub(crate) fn adopt(self, id: usize, place: usize) -> (node: CommandNode<T>)
        requires
            place <= self.spec_base().ordered@.len(),
        ensures
            same_node(self, node),
            node.spec_base().children@ == self.spec_base().children@.push(id),
            node.spec_base().ordered@ == self.spec_base().ordered@.insert(place as int, id),
    {
        match self {
            CommandNode::Root(n) => {
                let mut base = n.base;
                base.children.push(id);
                base.ordered.insert(place, id);
                CommandNode::Root(RootCommandNode { base })
            },
            CommandNode::Literal(n) => {
                let mut base = n.base;
                base.children.push(id);
                base.ordered.insert(place, id);
                CommandNode::Literal(LiteralCommandNode { literal: n.literal, base })
            },
            CommandNode::Argument(n) => {
                let mut base = n.base;
                base.children.push(id);
                base.ordered.insert(place, id);
                CommandNode::Argument(
                    ArgumentCommandNode {
                        name: n.name,
                        type_: n.type_,
                        custom_suggestions: n.custom_suggestions,
                        base,
                    },
                )
            },
        }
    }
}

} // verus!
