//! Completions for a partly typed input.
use vstd::prelude::*;
use crate::arguments::ArgumentType;
use crate::context::{
    CommandContext,
    CommandContextBuilder,
    CommandContextView,
    ContextView,
    ParsedCommandNode,
};
use crate::dispatcher::{CommandDispatcher, ParseResults};
use crate::exceptions::CommandSyntaxException;
use crate::suggestion::{
    arranged,
    flatten,
    parts_of,
    range_of,
    ranged,
    strictly_sorted,
    typed_of,
    BuilderView,
    Suggestions,
    SuggestionsBuilder,
    SuggestionsView,
};
use crate::text::to_text;
use crate::tree::{asked, CommandNode};

verus! {

/// Where completion takes place: the node whose children are asked, and
/// the offset at which the text to complete starts.
pub struct SuggestionContext {
    pub parent: usize,
    pub start: usize,
}

/// The place among the nodes of one context, from the `k`-th on: the node
/// whose range holds the cursor is completed as a child of the node before
/// it; if none does, the children of the last node are asked, from
/// `fallback`.
pub open spec fn place_among(
    nodes: Seq<ParsedCommandNode>,
    k: int,
    previous: usize,
    cursor: int,
    fallback: usize,
) -> (usize, int)
    decreases nodes.len() - k,
{
    if k < 0 || k >= nodes.len() {
        (previous, fallback as int)
    } else if nodes[k].range.start <= cursor <= nodes[k].range.end {
        (previous, nodes[k].range.start as int)
    } else {
        place_among(nodes, k + 1, nodes[k].node, cursor, fallback)
    }
}

/// The place of completion for a cursor in a chain of contexts; `None`
/// where the cursor lies before the context.
pub open spec fn place_of(context: ContextView, cursor: int) -> Option<(usize, int)>
    decreases context,
{
    if context.range.start <= cursor {
        if context.range.end < cursor {
            match context.child {
                Some(child) => place_of(*child, cursor),
                None => if context.nodes.len() > 0 {
                    Some((context.nodes.last().node, context.nodes.last().range.end + 1))
                } else {
                    Some((context.root, context.range.start as int))
                },
            }
        } else {
            Some(place_among(context.nodes, 0, context.root, cursor, context.range.start))
        }
    } else {
        None
    }
}

/// Whether `typed` is, in full, a literal among `children` from the `k`-th
/// on that the source can use.
pub open spec fn typed_in_full<T: ArgumentType>(
    nodes: Seq<CommandNode<T>>,
    children: Seq<usize>,
    granted: Seq<u32>,
    typed: Seq<char>,
    k: int,
) -> bool
    decreases children.len() - k,
{
    if k < 0 || k >= children.len() {
        false
    } else {
        let node = nodes[children[k] as int];
        (node matches CommandNode::Literal(n) && n.literal@ == typed && node.spec_base().usable(
            granted,
        )) || typed_in_full(nodes, children, granted, typed, k + 1)
    }
}

/// What a child contributes for the answer of its suggestion source:
/// the suggestions, or nothing where the source failed.
pub open spec fn taken(
    answer: Result<Suggestions, CommandSyntaxException>,
    part: SuggestionsView,
) -> bool {
    match answer {
        Ok(given) => part == given@,
        Err(_) => arranged(part, Seq::empty()),
    }
}

/// `part` is what `node` contributes for a builder with the view `fresh`,
/// which holds no candidates: where the node has a provider, what `ask`
/// gave for it, a context with the view `view` and the builder; else what
/// the node itself offers, put in order. A source that fails contributes
/// nothing.
pub open spec fn part_given<T: ArgumentType, P>(
    ask: &P,
    node: CommandNode<T>,
    view: CommandContextView,
    fresh: BuilderView,
    part: SuggestionsView,
) -> bool where
    P: Fn(u32, &CommandContext, SuggestionsBuilder) -> Result<Suggestions, CommandSyntaxException>,
 {
    match node.provider() {
        Some(p) => exists|context: CommandContext, answer: Result<Suggestions, CommandSyntaxException>|
            context@ == view && asked(ask, p, &context, fresh, answer) && taken(answer, part),
        None => match node.offers(view, typed_of(fresh)) {
            Ok(texts) => arranged(part, ranged(texts, range_of(fresh))),
            Err(_) => arranged(part, Seq::empty()),
        },
    }
}

/// `parts` holds what each of `children` contributes, in order: nothing
/// where all are `silenced`, and for a child that the source cannot use;
/// else what `part_given` says.
pub open spec fn parts_agree<T: ArgumentType, P>(
    parts: Seq<SuggestionsView>,
    ask: &P,
    nodes: Seq<CommandNode<T>>,
    children: Seq<usize>,
    granted: Seq<u32>,
    view: CommandContextView,
    fresh: BuilderView,
    silenced: bool,
) -> bool where
    P: Fn(u32, &CommandContext, SuggestionsBuilder) -> Result<Suggestions, CommandSyntaxException>,
 {
    &&& parts.len() == children.len()
    &&& forall|k: int|
        0 <= k < parts.len() ==> strictly_sorted((#[trigger] parts[k]).entries) && {
            let node = nodes[children[k] as int];
            if silenced || !node.spec_base().usable(granted) {
                arranged(parts[k], Seq::empty())
            } else {
                part_given(ask, node, view, fresh, parts[k])
            }
        }
}

/// The smaller of `start` and `cursor`.
pub open spec fn clipped(start: int, cursor: int) -> int {
    if start < cursor {
        start
    } else {
        cursor
    }
}

fn place_in(context: &CommandContextBuilder, cursor: usize) -> (r: Option<SuggestionContext>)
    ensures
        match place_of(context@, cursor as int) {
            Some((parent, start)) => r matches Some(p) && p.parent == parent && p.start == clipped(
                start,
                cursor as int,
            ),
            None => r is None,
        },
    decreases context@,
{
    let range = context.get_range();
    if range.start > cursor {
        return None;
    }
    let nodes = context.get_nodes();
    if range.end < cursor {
        match context.get_child() {
            Some(child) => place_in(child, cursor),
            None => {
                if nodes.len() > 0 {
                    let last = nodes[nodes.len() - 1];
                    let start: usize = if last.range.end < cursor {
                        last.range.end + 1
                    } else {
                        cursor
                    };
                    Some(SuggestionContext { parent: last.node, start })
                } else {
                    Some(SuggestionContext { parent: context.get_root_node(), start: range.start })
                }
            },
        }
    } else {
        let mut previous: usize = context.get_root_node();
        let mut k: usize = 0;
        while k < nodes.len()
            invariant
                k <= nodes.len(),
                nodes@ == context@.nodes,
                range == context@.range,
                range.start <= cursor <= range.end,
                place_among(nodes@, 0, context@.root, cursor as int, range.start) == place_among(
                    nodes@,
                    k as int,
                    previous,
                    cursor as int,
                    range.start,
                ),
            decreases nodes.len() - k,
        {
            let here = nodes[k];
            if here.range.start <= cursor && cursor <= here.range.end {
                return Some(SuggestionContext { parent: previous, start: here.range.start });
            }
            previous = here.node;
            k = k + 1;
        }
        Some(SuggestionContext { parent: previous, start: range.start })
    }
}

/// What `get_completion_suggestions` returns for the context and the
/// input of a parse and a cursor: nothing where the cursor lies before the
/// path or the place is no node of the tree; else what the children at the
/// place contribute for the text between the start of the place and the
/// cursor, merged and put in order. The context that the sources are given
/// has the input up to the cursor. Where literals are `exclusive` and the
/// text to complete is a usable literal in full, the children contribute
/// nothing.
pub open spec fn completes<T: ArgumentType, P>(
    nodes: Seq<CommandNode<T>>,
    context: ContextView,
    input: Seq<char>,
    cursor: int,
    granted: Seq<u32>,
    ask: &P,
    exclusive: bool,
    out: SuggestionsView,
) -> bool where
    P: Fn(u32, &CommandContext, SuggestionsBuilder) -> Result<Suggestions, CommandSyntaxException>,
 {
    let at = if cursor < input.len() { cursor } else { input.len() as int };
    match place_of(context, at) {
        None => arranged(out, Seq::empty()),
        Some((parent, start)) => if parent >= nodes.len() {
            arranged(out, Seq::empty())
        } else {
            let typed_input = input.subrange(0, at);
            let fresh = BuilderView {
                input: typed_input,
                start: clipped(start, at),
                pending: Seq::empty(),
            };
            let children = nodes[parent as int].spec_base().children@;
            exists|parts: Seq<SuggestionsView>|
                parts_agree(
                    parts,
                    ask,
                    nodes,
                    children,
                    granted,
                    CommandContextView { input: typed_input, context },
                    fresh,
                    exclusive && typed_in_full(nodes, children, granted, typed_of(fresh), 0),
                ) && arranged(out, flatten(parts))
        },
    }
}

impl<T: ArgumentType> CommandDispatcher<T> {
    /// Whether the text of `input` from `start` on is, in full, a literal
    /// child of `parent` that the source can use.
    pub fn is_typed_in_full(
        &self,
        parent: usize,
        input: &Vec<char>,
        start: usize,
        granted: &Vec<u32>,
    ) -> (r: bool)
        requires
            parent < self.tree().len(),
            start <= input@.len(),
        ensures
            r == typed_in_full(
                self.tree(),
                self.tree()[parent as int].spec_base().children@,
                granted@,
                input@.subrange(start as int, input@.len() as int),
                0,
            ),
    {
        let count: usize = self.node_count();
        let ghost nodes = self.tree();
        let ghost typed = input@.subrange(start as int, input@.len() as int);
        assert(crate::tree::node_wf(nodes, parent as int));
        let children = &self.get_node(parent).base().children;
        let mut text: Vec<char> = Vec::new();
        let mut i: usize = start;
        while i < input.len()
            invariant
                start <= i <= input.len(),
                text@ == input@.subrange(start as int, i as int),
            decreases input.len() - i,
        {
            text.push(input[i]);
            i = i + 1;
        }
        let mut k: usize = 0;
        while k < children.len()
            invariant
                self.wf(),
                nodes == self.tree(),
                parent < nodes.len(),
                crate::tree::node_wf(nodes, parent as int),
                children@ == nodes[parent as int].spec_base().children@,
                k <= children.len(),
                text@ == typed,
                start <= input@.len(),
                typed == input@.subrange(start as int, input@.len() as int),
                typed_in_full(nodes, children@, granted@, typed, 0) == typed_in_full(
                    nodes,
                    children@,
                    granted@,
                    typed,
                    k as int,
                ),
            decreases children.len() - k,
        {
            let child = self.get_node(children[k]);
            if child.is_literal() && child.base().can_use(granted) && crate::text::same_text(
                &child.name_chars(),
                &text,
            ) {
                return true;
            }
            k = k + 1;
        }
        false
    }

    /// What each child of `parent` contributes for the text of `input`
    /// from `start` on. `ask` is the embedder's way to call the suggestion
    /// provider behind a handle; it is asked for each child that has a
    /// provider and that the source can use, with `context`.
    pub fn completion_parts<P>(
        &self,
        parent: usize,
        context: &CommandContext,
        input: &Vec<char>,
        start: usize,
        granted: &Vec<u32>,
        ask: &P,
    ) -> (parts: Vec<Suggestions>) where
        P: Fn(u32, &CommandContext, SuggestionsBuilder) -> Result<
            Suggestions,
            CommandSyntaxException,
        >,

        requires
            parent < self.tree().len(),
            start <= input@.len(),
            forall|p: u32, c: &CommandContext, b: SuggestionsBuilder| call_requires(ask, (p, c, b)),
        ensures
            parts_agree(
                parts_of(parts@),
                ask,
                self.tree(),
                self.tree()[parent as int].spec_base().children@,
                granted@,
                context@,
                BuilderView { input: input@, start: start as int, pending: Seq::empty() },
                self.exclusive() && typed_in_full(
                    self.tree(),
                    self.tree()[parent as int].spec_base().children@,
                    granted@,
                    input@.subrange(start as int, input@.len() as int),
                    0,
                ),
            ),
    {
        let count: usize = self.node_count();
        let ghost nodes = self.tree();
        let ghost view = context@;
        let ghost fresh = BuilderView { input: input@, start: start as int, pending: Seq::empty() };
        assert(crate::tree::node_wf(nodes, parent as int));
        let children = &self.get_node(parent).base().children;
        let silenced: bool = self.is_exclusive() && self.is_typed_in_full(
            parent,
            input,
            start,
            granted,
        );
        let mut parts: Vec<Suggestions> = Vec::new();
        let mut k: usize = 0;
        while k < children.len()
            invariant
                self.wf(),
                nodes == self.tree(),
                parent < nodes.len(),
                crate::tree::node_wf(nodes, parent as int),
                children@ == nodes[parent as int].spec_base().children@,
                start <= input@.len(),
                view == context@,
                fresh == (BuilderView { input: input@, start: start as int, pending: Seq::empty() }),
                forall|p: u32, c: &CommandContext, b: SuggestionsBuilder|
                    call_requires(ask, (p, c, b)),
                k <= children.len(),
                parts@.len() == k,
                parts_agree(
                    parts_of(parts@),
                    ask,
                    nodes,
                    children@.subrange(0, k as int),
                    granted@,
                    view,
                    fresh,
                    silenced,
                ),
            decreases children.len() - k,
        {
            let c: usize = children[k];
            let child = self.get_node(c);
            let ghost before = parts@;
            let part = if !silenced && child.base().can_use(granted) {
                let mut builder = SuggestionsBuilder::from_chars(input, start);
                let answer = child.list_suggestions(context, &mut builder, ask);
                proof {
                    match child.provider() {
                        Some(p) => {
                            assert(asked(ask, p, context, fresh, answer));
                        },
                        None => {
                            child.lemma_lists_fresh(ask, context, fresh, builder@, answer);
                        },
                    }
                }
                let part = match answer {
                    Ok(given) => given,
                    Err(_) => Suggestions::empty(),
                };
                proof {
                    match child.provider() {
                        Some(p) => {
                            assert((*context)@ == view && asked(ask, p, &*context, fresh, answer)
                                && taken(answer, part@));
                            assert(part_given(ask, *child, view, fresh, part@));
                        },
                        None => {
                            assert(part_given(ask, *child, view, fresh, part@));
                        },
                    }
                }
                part
            } else {
                Suggestions::empty()
            };
            proof {
                use_type_invariant(&part);
            }
            parts.push(part);
            proof {
                let now = parts_of(parts@);
                let upto = children@.subrange(0, k + 1);
                assert forall|j: int| 0 <= j < now.len() implies strictly_sorted(
                    (#[trigger] now[j]).entries,
                ) && {
                    let node = nodes[upto[j] as int];
                    if silenced || !node.spec_base().usable(granted@) {
                        arranged(now[j], Seq::empty())
                    } else {
                        part_given(ask, node, view, fresh, now[j])
                    }
                } by {
                    if j < k {
                        assert(now[j] == parts_of(before)[j]);
                        assert(upto[j] == children@.subrange(0, k as int)[j]);
                    } else {
                        assert(now[j] == part@);
                        assert(upto[j] == c);
                    }
                }
            }
            k = k + 1;
        }
        assert(children@.subrange(0, k as int) == children@);
        parts
    }

    /// The completions for `cursor` in the input that `parse` is the
    /// outcome of: what the children at the place of the cursor contribute,
    /// merged. `ask` is the embedder's way to call the suggestion provider
    /// behind a handle.
    pub fn get_completion_suggestions<P>(
        &self,
        parse: &ParseResults,
        cursor: usize,
        granted: &Vec<u32>,
        ask: &P,
    ) -> (out: Suggestions) where
        P: Fn(u32, &CommandContext, SuggestionsBuilder) -> Result<
            Suggestions,
            CommandSyntaxException,
        >,

        requires
            forall|p: u32, c: &CommandContext, b: SuggestionsBuilder| call_requires(ask, (p, c, b)),
        ensures
            out.wf(),
            completes(
                self.tree(),
                parse@.context,
                parse@.input,
                cursor as int,
                granted@,
                ask,
                self.exclusive(),
                out@,
            ),
    {
        let count: usize = self.node_count();
        let reader = parse.get_reader();
        proof {
            use_type_invariant(reader);
        }
        let total: usize = reader.get_total_length();
        let at: usize = if cursor < total { cursor } else { total };
        match place_in(parse.get_context(), at) {
            None => Suggestions::empty(),
            Some(place) => {
                if place.parent >= count {
                    return Suggestions::empty();
                }
                let typed_input = reader.slice(0, at);
                let text = to_text(&typed_input);
                let context = parse.get_context().build(text.as_str());
                let parts = self.completion_parts(
                    place.parent,
                    &context,
                    &typed_input,
                    place.start,
                    granted,
                    ask,
                );
                proof {
                    let fresh = BuilderView {
                        input: typed_input@,
                        start: place.start as int,
                        pending: Seq::empty(),
                    };
                    assert(typed_of(fresh) =~= typed_input@.subrange(
                        place.start as int,
                        typed_input@.len() as int,
                    ));
                }
                Suggestions::merge(&parts)
            },
        }
    }
}

} // verus!
