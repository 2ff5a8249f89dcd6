//! What holds of parsing, whatever the tree and the input.
use vstd::prelude::*;
use crate::arguments::{ArgumentType, ValueView};
use crate::context::{ContextView, ParsedArgumentView, ParsedCommandNode};
use crate::dispatcher::{
    better,
    has_child_named,
    parse_nodes,
    rank,
    trial,
    try_children,
    ResultsView,
};
use crate::exceptions::ExceptionView;
use crate::context::CommandContext;
use crate::execution::{
    any_fork,
    concluded,
    context_at,
    executes,
    failed,
    failures_upto,
    gathered,
    hop_taken,
    lemma_plan_after_hops,
    lifted,
    plan_of,
    planned,
    ran,
    run_gives,
    sources_at,
    step_taken,
    successes,
    ExecuteError,
    Hop,
    PlanView,
};
use crate::suggestion::{
    arranged,
    first_among,
    first_of_key,
    holds_key,
    lemma_precedes_order,
    precedes,
    same_key,
    strictly_sorted,
    StringRange,
    SuggestionView,
    SuggestionsView,
};
use crate::text::{lemma_alike_exact, lemma_lex_order};
use crate::tree::{
    literal_end,
    node_wf,
    tree_wf,
    tried_before,
    ArgumentCommandNode,
    CommandNode,
    ARGUMENT_SEPARATOR,
};

verus! {

/// In a well-formed tree two children of one node have different names:
/// a name that a child of the node has cannot be registered again.
pub proof fn lemma_sibling_names_differ<T: ArgumentType>(
    nodes: Seq<CommandNode<T>>,
    node: int,
    k: int,
    l: int,
)
    requires
        tree_wf(nodes),
        0 <= node < nodes.len(),
        0 <= k < nodes[node].spec_base().children@.len(),
        0 <= l < nodes[node].spec_base().children@.len(),
        k != l,
    ensures
        nodes[nodes[node].spec_base().children@[k] as int].spec_name()
            != nodes[nodes[node].spec_base().children@[l] as int].spec_name(),
        has_child_named(
            nodes,
            nodes[node].spec_base().children@,
            nodes[nodes[node].spec_base().children@[k] as int].spec_name(),
        ),
{
    assert(node_wf(nodes, node));
    let children = nodes[node].spec_base().children@;
    if k < l {
        assert(nodes[children[k] as int].spec_name() != nodes[children[l] as int].spec_name());
    } else {
        assert(nodes[children[l] as int].spec_name() != nodes[children[k] as int].spec_name());
    }
    assert(nodes[children[k] as int].spec_name() == nodes[children[k] as int].spec_name());
}

/// No character of `name` is the separator.
pub open spec fn one_token(name: Seq<char>) -> bool {
    forall|i: int| 0 <= i < name.len() ==> #[trigger] name[i] != ARGUMENT_SEPARATOR
}

/// The context of a path from the root that went through the literal `c`
/// alone, which consumed `name`.
pub open spec fn through_literal<T: ArgumentType>(nodes: Seq<CommandNode<T>>, c: usize) -> ContextView {
    let base = nodes[c as int].spec_base();
    ContextView::fresh(0, 0).add_node(
        c,
        StringRange { start: 0, end: nodes[c as int].spec_name().len() as usize },
        base.modifier,
        base.forks,
    ).set_command(base.command)
}

/// Among the children of a node, a literal of another name than the token
/// `name` does not match an input that starts with `name` followed by the
/// end of the input or a separator, unless it has a separator in itself.
proof fn lemma_other_literal_fails(other: Seq<char>, name: Seq<char>, input: Seq<char>)
    requires
        other != name,
        one_token(name),
        one_token(other) || name.len() == input.len(),
        name.len() <= input.len(),
        input.subrange(0, name.len() as int) == name,
        name.len() == input.len() || input[name.len() as int] == ARGUMENT_SEPARATOR,
    ensures
        literal_end(other, input, 0) is None,
{
    if literal_end(other, input, 0) is Some {
        let end = other.len() as int;
        assert(input.subrange(0, end) == other);
        if end < name.len() {
            assert(input[end] == ARGUMENT_SEPARATOR);
            assert(name[end] == input.subrange(0, name.len() as int)[end]);
        } else if end > name.len() {
            assert(other[name.len() as int] == input.subrange(0, end)[name.len() as int]);
        } else {
            assert(other =~= name);
        }
    }
}

/// Two outcomes are the same but for whether they are ambiguous.
pub open spec fn same_path(a: ResultsView, b: ResultsView) -> bool {
    &&& a.context == b.context
    &&& a.input == b.input
    &&& a.cursor == b.cursor
    &&& a.exceptions == b.exceptions
}

/// Once a child took all of the input without failed branches, no later
/// child changes the path.
proof fn lemma_best_stays<T: ArgumentType>(
    nodes: Seq<CommandNode<T>>,
    granted: Seq<u32>,
    input: Seq<char>,
    node: usize,
    context: ContextView,
    k: int,
    best: ResultsView,
    errors: Seq<(usize, ExceptionView)>,
)
    requires
        one_token(input),
        rank(best) == 0,
        0 <= k,
    ensures
        same_path(
            try_children(nodes, granted, input, node, 0, context, k, Some(best), errors),
            best,
        ),
    decreases nodes[node as int].spec_base().ordered@.len() - k,
{
    let order = nodes[node as int].spec_base().ordered@;
    if k < order.len() {
        let c = order[k];
        let base = nodes[c as int].spec_base();
        if !base.usable(granted) {
            lemma_best_stays(nodes, granted, input, node, context, k + 1, best, errors);
        } else {
            match trial(nodes, c, input, 0, context) {
                Err((kind, at)) => {
                    lemma_best_stays(
                        nodes,
                        granted,
                        input,
                        node,
                        context,
                        k + 1,
                        best,
                        errors.push((c, ExceptionView { kind, input, cursor: at })),
                    );
                },
                Ok((after, end)) => {
                    let needed = if base.redirect is None { 2int } else { 1int };
                    if 0 <= end && end + needed <= input.len() {
                        assert(input[end] != ARGUMENT_SEPARATOR);
                        assert(false);
                    }
                    let found = ResultsView {
                        context: after,
                        input,
                        cursor: end,
                        exceptions: Seq::empty(),
                        ambiguous: false,
                    };
                    let kept = better(Some(best), found)->0;
                    assert(same_path(kept, best));
                    lemma_best_stays(nodes, granted, input, node, context, k + 1, kept, errors);
                },
            }
        }
    }
}

/// The children before the literal `c` in trial order fail on its name,
/// and `c` decides the outcome.
proof fn lemma_literal_reached<T: ArgumentType>(
    nodes: Seq<CommandNode<T>>,
    granted: Seq<u32>,
    at: int,
    k: int,
    errors: Seq<(usize, ExceptionView)>,
)
    requires
        tree_wf(nodes),
        0 <= k <= at < nodes[0].spec_base().ordered@.len(),
        nodes[nodes[0].spec_base().ordered@[at] as int] is Literal,
        nodes[nodes[0].spec_base().ordered@[at] as int].spec_base().usable(granted),
        one_token(nodes[nodes[0].spec_base().ordered@[at] as int].spec_name()),
    ensures
        ({
            let c = nodes[0].spec_base().ordered@[at];
            let name = nodes[c as int].spec_name();
            same_path(
                try_children(nodes, granted, name, 0, 0, ContextView::fresh(0, 0), k, None, errors),
                ResultsView {
                    context: through_literal(nodes, c),
                    input: name,
                    cursor: name.len() as int,
                    exceptions: Seq::empty(),
                    ambiguous: false,
                },
            )
        }),
    decreases at - k,
{
    let order = nodes[0].spec_base().ordered@;
    let c = order[at];
    let name = nodes[c as int].spec_name();
    let context = ContextView::fresh(0, 0);
    assert(node_wf(nodes, 0));
    assert(name.subrange(0, name.len() as int) =~= name);
    if k == at {
        assert(literal_end(name, name, 0) == Some(name.len() as int));
        let found = ResultsView {
            context: through_literal(nodes, c),
            input: name,
            cursor: name.len() as int,
            exceptions: Seq::empty(),
            ambiguous: false,
        };
        assert(trial(nodes, c, name, 0, context) == Ok::<
            (ContextView, int),
            (crate::exceptions::BuiltInExceptions, int),
        >((through_literal(nodes, c), name.len() as int)));
        assert(better(None, found) == Some(found));
        lemma_best_stays(nodes, granted, name, 0, context, k + 1, found, errors);
    } else {
        let d = order[k];
        assert(tried_before(nodes[d as int], nodes[c as int]));
        assert(nodes[d as int] is Literal || nodes[d as int] is Root);
        lemma_lex_order(nodes[d as int].spec_name(), name, name, false);
        lemma_alike_exact(nodes[d as int].spec_name(), name);
        assert(nodes[d as int].spec_name() != name);
        let base = nodes[d as int].spec_base();
        assert(nodes[0].spec_base().children@.contains(order[k]));
        assert(d > 0);
        assert(node_wf(nodes, d as int));
        assert(nodes[d as int] is Literal);
        if !base.usable(granted) {
            lemma_literal_reached(nodes, granted, at, k + 1, errors);
        } else {
            lemma_other_literal_fails(nodes[d as int].spec_name(), name, name);
            match trial(nodes, d, name, 0, context) {
                Err((kind, place)) => {
                    lemma_literal_reached(
                        nodes,
                        granted,
                        at,
                        k + 1,
                        errors.push((d, ExceptionView { kind, input: name, cursor: place })),
                    );
                },
                Ok(_) => {
                    assert(false);
                },
            }
        }
    }
}

/// The exact name of a literal child of the root, and nothing else,
/// resolves to the path through that literal alone, with nothing left of
/// the input and no failed branch.
///
/// This holds for a literal that is one token, and for a source that can
/// use it.
pub proof fn lemma_literal_resolves<T: ArgumentType>(
    nodes: Seq<CommandNode<T>>,
    granted: Seq<u32>,
    at: int,
)
    requires
        tree_wf(nodes),
        0 <= at < nodes[0].spec_base().ordered@.len(),
        nodes[nodes[0].spec_base().ordered@[at] as int] is Literal,
        nodes[nodes[0].spec_base().ordered@[at] as int].spec_base().usable(granted),
        one_token(nodes[nodes[0].spec_base().ordered@[at] as int].spec_name()),
    ensures
        ({
            let c = nodes[0].spec_base().ordered@[at];
            let name = nodes[c as int].spec_name();
            let r = parse_nodes(nodes, granted, name, 0, 0, ContextView::fresh(0, 0));
            &&& r.cursor == name.len()
            &&& r.input == name
            &&& r.exceptions.len() == 0
            &&& r.context == through_literal(nodes, c)
            &&& r.context.nodes == seq![
                ParsedCommandNode { node: c, range: StringRange { start: 0, end: name.len() as usize } },
            ]
            &&& r.context.child is None
        }),
{
    lemma_literal_reached(nodes, granted, at, 0, Seq::empty());
    let c = nodes[0].spec_base().ordered@[at];
    assert(through_literal(nodes, c).nodes =~= seq![
        ParsedCommandNode {
            node: c,
            range: StringRange { start: 0, end: nodes[c as int].spec_name().len() as usize },
        },
    ]);
}

/// What a redirecting literal `c` makes of an input that goes on after its
/// name and one separator: the path through `c`, continued by what the
/// redirect target makes of the rest.
pub open spec fn redirected<T: ArgumentType>(
    nodes: Seq<CommandNode<T>>,
    granted: Seq<u32>,
    input: Seq<char>,
    c: usize,
) -> ResultsView {
    let target = nodes[c as int].spec_base().redirect->0;
    let from = nodes[c as int].spec_name().len() as int + 1;
    let sub = parse_nodes(
        nodes,
        granted,
        input,
        target,
        from,
        ContextView::fresh(target, from as usize),
    );
    ResultsView {
        context: through_literal(nodes, c).set_child(sub.context),
        input,
        cursor: sub.cursor,
        exceptions: sub.exceptions,
        ambiguous: sub.ambiguous,
    }
}

proof fn lemma_redirect_reached<T: ArgumentType>(
    nodes: Seq<CommandNode<T>>,
    granted: Seq<u32>,
    input: Seq<char>,
    at: int,
    k: int,
    errors: Seq<(usize, ExceptionView)>,
)
    requires
        tree_wf(nodes),
        0 <= k <= at < nodes[0].spec_base().ordered@.len(),
        nodes[nodes[0].spec_base().ordered@[at] as int] is Literal,
        nodes[nodes[0].spec_base().ordered@[at] as int].spec_base().usable(granted),
        nodes[nodes[0].spec_base().ordered@[at] as int].spec_base().redirect is Some,
        one_token(nodes[nodes[0].spec_base().ordered@[at] as int].spec_name()),
        forall|j: int|
            0 <= j < at ==> one_token(
                nodes[#[trigger] nodes[0].spec_base().ordered@[j] as int].spec_name(),
            ),
        starts_with_token(input, nodes[nodes[0].spec_base().ordered@[at] as int].spec_name()),
    ensures
        try_children(nodes, granted, input, 0, 0, ContextView::fresh(0, 0), k, None, errors)
            == redirected(nodes, granted, input, nodes[0].spec_base().ordered@[at]),
    decreases at - k,
{
    let order = nodes[0].spec_base().ordered@;
    let c = order[at];
    let name = nodes[c as int].spec_name();
    let context = ContextView::fresh(0, 0);
    assert(node_wf(nodes, 0));
    if k == at {
        assert(literal_end(name, input, 0) == Some(name.len() as int));
        assert(trial(nodes, c, input, 0, context) == Ok::<
            (ContextView, int),
            (crate::exceptions::BuiltInExceptions, int),
        >((through_literal(nodes, c), name.len() as int)));
    } else {
        let d = order[k];
        assert(tried_before(nodes[d as int], nodes[c as int]));
        lemma_lex_order(nodes[d as int].spec_name(), name, name, false);
        lemma_alike_exact(nodes[d as int].spec_name(), name);
        assert(nodes[0].spec_base().children@.contains(order[k]));
        assert(node_wf(nodes, d as int));
        assert(nodes[d as int] is Literal);
        let base = nodes[d as int].spec_base();
        if !base.usable(granted) {
            lemma_redirect_reached(nodes, granted, input, at, k + 1, errors);
        } else {
            lemma_other_literal_fails(nodes[d as int].spec_name(), name, input);
            match trial(nodes, d, input, 0, context) {
                Err((kind, place)) => {
                    lemma_redirect_reached(
                        nodes,
                        granted,
                        input,
                        at,
                        k + 1,
                        errors.push((d, ExceptionView { kind, input, cursor: place })),
                    );
                },
                Ok(_) => {
                    assert(false);
                },
            }
        }
    }
}

/// `input` is `name`, one separator, and at least nothing more.
pub open spec fn starts_with_token(input: Seq<char>, name: Seq<char>) -> bool {
    &&& name.len() < input.len()
    &&& input.subrange(0, name.len() as int) == name
    &&& input[name.len() as int] == ARGUMENT_SEPARATOR
}

/// Where a literal child of the root redirects, an input that goes on after
/// its name resolves to the path through that literal, continued by what
/// the redirect target makes of the rest of the input; and what is then
/// run is what the target's own path says, after the one redirect with the
/// literal's modifier and fork flag.
///
/// This holds for a literal that is one token, when the literals tried
/// before it are, and for a source that can use it.
pub proof fn lemma_redirect_continues<T: ArgumentType>(
    nodes: Seq<CommandNode<T>>,
    granted: Seq<u32>,
    input: Seq<char>,
    at: int,
)
    requires
        tree_wf(nodes),
        0 <= at < nodes[0].spec_base().ordered@.len(),
        nodes[nodes[0].spec_base().ordered@[at] as int] is Literal,
        nodes[nodes[0].spec_base().ordered@[at] as int].spec_base().usable(granted),
        nodes[nodes[0].spec_base().ordered@[at] as int].spec_base().redirect is Some,
        one_token(nodes[nodes[0].spec_base().ordered@[at] as int].spec_name()),
        forall|j: int|
            0 <= j < at ==> one_token(
                nodes[#[trigger] nodes[0].spec_base().ordered@[j] as int].spec_name(),
            ),
        starts_with_token(input, nodes[nodes[0].spec_base().ordered@[at] as int].spec_name()),
    ensures
        ({
            let c = nodes[0].spec_base().ordered@[at];
            let base = nodes[c as int].spec_base();
            let r = parse_nodes(nodes, granted, input, 0, 0, ContextView::fresh(0, 0));
            let target = base.redirect->0;
            let from = nodes[c as int].spec_name().len() as int + 1;
            let sub = parse_nodes(
                nodes,
                granted,
                input,
                target,
                from,
                ContextView::fresh(target, from as usize),
            );
            &&& r == redirected(nodes, granted, input, c)
            &&& plan_of(r.context, Seq::empty()) == if sub.context.nodes.len() > 0 {
                match plan_of(sub.context, Seq::empty()) {
                    Some(p) => Some(
                        PlanView {
                            hops: seq![Hop { modifier: base.modifier, forks: base.forks }] + p.hops,
                            command: p.command,
                        },
                    ),
                    None => None,
                }
            } else {
                None
            }
        }),
{
    lemma_redirect_reached(nodes, granted, input, at, 0, Seq::empty());
    let c = nodes[0].spec_base().ordered@[at];
    let base = nodes[c as int].spec_base();
    let r = redirected(nodes, granted, input, c);
    let sub_context = *r.context.child->0;
    let hop = Hop { modifier: base.modifier, forks: base.forks };
    lemma_plan_after_hops(sub_context, Seq::<Hop>::empty().push(hop));
    assert(Seq::<Hop>::empty().push(hop) =~= seq![hop]);
}

/// Round trip: for a type that can write a value, parsing what it wrote
/// gives the value back and takes all of what was written, from whatever
/// offset the written text starts at, where the input ends with it.
pub proof fn lemma_round_trip<T: ArgumentType>(kind: T, value: ValueView, before: Seq<char>)
    requires
        kind.spec_render(value) is Some,
    ensures
        kind.spec_parse(before + kind.spec_render(value)->0, before.len() as int) == Ok::<
            (ValueView, int),
            (crate::exceptions::BuiltInExceptions, int),
        >((value, (before + kind.spec_render(value)->0).len() as int)),
{
    kind.lemma_round_trip(value, before);
}

/// Round trip at a node: where the input from the cursor to its end is what
/// the node's type wrote for a value, the node's parse succeeds, records the
/// value under the node's name with the range from the cursor to the end of
/// the input, and ends at the end of the input.
pub proof fn lemma_node_round_trip<T: ArgumentType>(
    node: ArgumentCommandNode<T>,
    id: usize,
    value: ValueView,
    before: Seq<char>,
    context: ContextView,
)
    requires
        node.type_.spec_render(value) is Some,
        (before + node.type_.spec_render(value)->0).len() <= usize::MAX,
    ensures
        ({
            let input = before + node.type_.spec_render(value)->0;
            let range = StringRange { start: before.len() as usize, end: input.len() as usize };
            let parsed = ParsedArgumentView { range, result: value };
            node.outcome(id, input, before.len() as int, context) == Ok::<
                (ContextView, int),
                (crate::exceptions::BuiltInExceptions, int),
            >(
                (
                    context.put_argument(node.name@, parsed).add_node(
                        id,
                        range,
                        node.base.modifier,
                        node.base.forks,
                    ),
                    input.len() as int,
                ),
            )
        }),
{
    node.type_.lemma_round_trip(value, before);
}

/// Two candidates that are each the first with their range and text, and
/// have the same range and text, are one.
proof fn lemma_first_is_one(candidates: Seq<SuggestionView>, x: int, y: int)
    requires
        first_of_key(candidates, x),
        first_of_key(candidates, y),
        same_key(candidates[x], candidates[y]),
    ensures
        x == y,
{
    if x < y {
        assert(same_key(candidates[x], candidates[y]));
    } else if y < x {
        assert(same_key(candidates[y], candidates[x]));
    }
}

/// An entry of one arrangement is an entry of the other: the one with its
/// range and text.
proof fn lemma_entry_in_other(
    a: SuggestionsView,
    b: SuggestionsView,
    candidates: Seq<SuggestionView>,
    i: int,
) -> (j: int)
    requires
        arranged(a, candidates),
        arranged(b, candidates),
        0 <= i < a.entries.len(),
    ensures
        0 <= j < b.entries.len(),
        b.entries[j] == a.entries[i],
{
    assert(first_among(candidates, a.entries[i]));
    let x = choose|x: int| first_of_key(candidates, x) && a.entries[i] == candidates[x];
    assert(holds_key(b.entries, candidates[x]));
    let j = choose|j: int| 0 <= j < b.entries.len() && same_key(b.entries[j], candidates[x]);
    assert(first_among(candidates, b.entries[j]));
    let y = choose|y: int| first_of_key(candidates, y) && b.entries[j] == candidates[y];
    lemma_first_is_one(candidates, x, y);
    j
}

/// Two arrangements of the same candidates agree on their first `n`
/// entries.
proof fn lemma_same_prefix(
    a: SuggestionsView,
    b: SuggestionsView,
    candidates: Seq<SuggestionView>,
    n: int,
)
    requires
        arranged(a, candidates),
        arranged(b, candidates),
        0 <= n <= a.entries.len(),
    ensures
        n <= b.entries.len(),
        forall|i: int| 0 <= i < n ==> a.entries[i] == b.entries[i],
    decreases n,
{
    if n > 0 {
        lemma_same_prefix(a, b, candidates, n - 1);
        let i = n - 1;
        let j = lemma_entry_in_other(a, b, candidates, i);
        if j < i {
            assert(a.entries[j] == b.entries[j]);
            lemma_strict(a.entries, j, i);
        } else if j > i {
            let k = lemma_entry_in_other(b, a, candidates, i);
            lemma_strict(b.entries, i, j);
            if k < i {
                assert(a.entries[k] == b.entries[k]);
                lemma_strict(b.entries, k, i);
            } else if k > i {
                lemma_strict(a.entries, i, k);
                lemma_asymmetric(a.entries[i], a.entries[k]);
            } else {
                lemma_asymmetric(b.entries[i], b.entries[i]);
            }
            assert(false);
        }
    }
}

/// In a sorted list an earlier entry is not a later one.
proof fn lemma_strict(entries: Seq<SuggestionView>, i: int, j: int)
    requires
        strictly_sorted(entries),
        0 <= i < j < entries.len(),
    ensures
        precedes(entries[i], entries[j]),
        entries[i] != entries[j],
{
    lemma_asymmetric(entries[i], entries[j]);
}

/// Of two candidates at most one comes before the other, and none before
/// itself.
proof fn lemma_asymmetric(a: SuggestionView, b: SuggestionView)
    ensures
        !(precedes(a, b) && precedes(b, a)),
        !precedes(a, a),
{
    lemma_precedes_order(a, b, a);
}

/// Putting candidates in order has one result: two sets of suggestions
/// that are both arranged from the same candidates are the same.
pub proof fn lemma_arranged_unique(
    a: SuggestionsView,
    b: SuggestionsView,
    candidates: Seq<SuggestionView>,
)
    requires
        arranged(a, candidates),
        arranged(b, candidates),
    ensures
        a == b,
{
    lemma_same_prefix(a, b, candidates, a.entries.len() as int);
    lemma_same_prefix(b, a, candidates, b.entries.len() as int);
    assert(a.entries =~= b.entries);
}

/// No hop has a modifier.
pub open spec fn plain(hops: Seq<Hop>) -> bool {
    forall|h: int| 0 <= h < hops.len() ==> (#[trigger] hops[h]).modifier is None
}

/// Through hops without modifier the one source goes on as it is, and
/// nothing fails.
proof fn lemma_plain_levels<S, E, M>(
    derive: &M,
    hops: Seq<Hop>,
    parse: ResultsView,
    source: S,
    trace: Seq<Seq<Result<Seq<S>, E>>>,
    h: int,
) where M: Fn(u32, &CommandContext, &S) -> Result<Vec<S>, E>
    requires
        plain(hops),
        trace.len() == hops.len(),
        0 <= h <= hops.len(),
        forall|j: int|
            0 <= j < hops.len() ==> hop_taken(
                derive,
                hops[j],
                context_at(parse, j),
                sources_at(source, trace, j),
                #[trigger] trace[j],
            ),
    ensures
        sources_at(source, trace, h) == seq![source],
        failures_upto(trace, h) == Seq::<Result<i32, E>>::empty(),
    decreases h,
{
    if h > 0 {
        lemma_plain_levels(derive, hops, parse, source, trace, h - 1);
        let steps = trace[h - 1];
        assert(hops[h - 1].modifier is None);
        assert(steps.len() == 1);
        assert(step_taken(derive, hops[h - 1], context_at(parse, h - 1), source, steps[0]));
        assert(steps[0] == Ok::<Seq<S>, E>(seq![source]));
        let none = steps.drop_last();
        assert(none.len() == 0);
        assert(gathered(none) =~= Seq::<S>::empty());
        assert(failed(none) =~= Seq::<Result<i32, E>>::empty());
        assert(steps.last() == steps[0]);
        assert(gathered(steps) =~= seq![source]);
        assert(failed(steps) =~= Seq::<Result<i32, E>>::empty());
        assert(failures_upto(trace, h) =~= Seq::<Result<i32, E>>::empty());
    }
}

/// Where no redirect on the way has a modifier, `execute` gives what the
/// executor gives for the source as it is, with the context of the last
/// level: the same as running the command that the redirect target
/// resolved by itself.
pub proof fn lemma_plain_redirect_runs_once<S, E, R, M>(
    parse: ResultsView,
    source: S,
    run: &R,
    derive: &M,
    r: Result<i32, ExecuteError<E>>,
) where
    R: Fn(u32, &CommandContext, &S) -> Result<i32, E>,
    M: Fn(u32, &CommandContext, &S) -> Result<Vec<S>, E>,

    requires
        executes(parse, source, run, derive, r),
        planned(parse) matches Ok(p) && plain(p.hops),
    ensures
        ({
            let p = planned(parse)->Ok_0;
            exists|outcome: Result<i32, E>|
                run_gives(run, p.command, context_at(parse, p.hops.len() as int), source, outcome)
                    && r == lifted(concluded(any_fork(p.hops), seq![outcome]))
        }),
{
    let p = planned(parse)->Ok_0;
    let n = p.hops.len() as int;
    let (trace, outcomes) = choose|trace: Seq<Seq<Result<Seq<S>, E>>>, outcomes: Seq<Result<i32, E>>|
        ran(parse, source, run, derive, p, trace, outcomes) && r == lifted(
            concluded(any_fork(p.hops), failures_upto(trace, p.hops.len() as int) + outcomes),
        );
    lemma_plain_levels(derive, p.hops, parse, source, trace, n);
    assert(outcomes.len() == 1);
    let outcome = outcomes[0];
    assert(run_gives(run, p.command, context_at(parse, n), sources_at(source, trace, n)[0], outcome));
    assert(failures_upto(trace, n) + outcomes =~= seq![outcome]);
}

/// `derived` is what the modifier of the one hop gave for `source`, and
/// `outcomes` what the executor gave for each source it derived; `r` is
/// the number of outcomes that succeeded, or a failure where none did or
/// where the modifier failed.
pub open spec fn forked_once<S, E, R, M>(
    parse: ResultsView,
    source: S,
    run: &R,
    derive: &M,
    r: Result<i32, ExecuteError<E>>,
    derived: Result<Seq<S>, E>,
    outcomes: Seq<Result<i32, E>>,
) -> bool where
    R: Fn(u32, &CommandContext, &S) -> Result<i32, E>,
    M: Fn(u32, &CommandContext, &S) -> Result<Vec<S>, E>,
 {
    let p = planned(parse)->Ok_0;
    &&& step_taken(derive, p.hops[0], context_at(parse, 0), source, derived)
    &&& match derived {
        Ok(list) => {
            &&& outcomes.len() == list.len()
            &&& forall|i: int|
                0 <= i < list.len() ==> run_gives(
                    run,
                    p.command,
                    context_at(parse, 1),
                    list[i],
                    #[trigger] outcomes[i],
                )
            &&& r == lifted(concluded(true, outcomes))
        },
        Err(_) => r == Err::<i32, ExecuteError<E>>(ExecuteError::ForkFailed),
    }
}

/// Through one fork, `execute` runs the executor once for each source that
/// the modifier derived, and gives the number of those runs that succeeded,
/// or fails where none did; where the modifier itself failed, it fails.
pub proof fn lemma_fork_counts<S, E, R, M>(
    parse: ResultsView,
    source: S,
    run: &R,
    derive: &M,
    r: Result<i32, ExecuteError<E>>,
) where
    R: Fn(u32, &CommandContext, &S) -> Result<i32, E>,
    M: Fn(u32, &CommandContext, &S) -> Result<Vec<S>, E>,

    requires
        executes(parse, source, run, derive, r),
        planned(parse) matches Ok(p) && p.hops.len() == 1 && p.hops[0].forks,
    ensures
        exists|derived: Result<Seq<S>, E>, outcomes: Seq<Result<i32, E>>|
            #[trigger] forked_once(parse, source, run, derive, r, derived, outcomes),
{
    let p = planned(parse)->Ok_0;
    let (trace, outcomes) = choose|trace: Seq<Seq<Result<Seq<S>, E>>>, outcomes: Seq<Result<i32, E>>|
        ran(parse, source, run, derive, p, trace, outcomes) && r == lifted(
            concluded(any_fork(p.hops), failures_upto(trace, p.hops.len() as int) + outcomes),
        );
    let steps = trace[0];
    assert(hop_taken(derive, p.hops[0], context_at(parse, 0), sources_at(source, trace, 0), steps));
    assert(steps.len() == 1);
    let derived = steps[0];
    assert(step_taken(derive, p.hops[0], context_at(parse, 0), source, derived));
    let none = steps.drop_last();
    assert(none.len() == 0);
    assert(gathered(none) =~= Seq::<S>::empty());
    assert(failed(none) =~= Seq::<Result<i32, E>>::empty());
    assert(steps.last() == derived);
    assert(failures_upto(trace, 0) =~= Seq::<Result<i32, E>>::empty());
    assert(failures_upto(trace, 1) =~= failed(steps));
    assert(any_fork(p.hops));
    match derived {
        Ok(list) => {
            assert(gathered(steps) =~= list);
            assert(failed(steps) =~= Seq::<Result<i32, E>>::empty());
            assert(failures_upto(trace, 1) + outcomes =~= outcomes);
            assert forall|i: int| 0 <= i < list.len() implies run_gives(
                run,
                p.command,
                context_at(parse, 1),
                list[i],
                #[trigger] outcomes[i],
            ) by {
                assert(sources_at(source, trace, 1)[i] == list[i]);
            }
        },
        Err(e) => {
            let one = seq![Err::<i32, E>(e)];
            assert(failed(steps) =~= one);
            assert(sources_at(source, trace, 1) =~= Seq::<S>::empty());
            assert(outcomes.len() == 0);
            assert(failures_upto(trace, 1) + outcomes =~= one);
            assert(one.drop_last() =~= Seq::<Result<i32, E>>::empty());
            assert(successes(one.drop_last()) == 0);
            assert(successes(one) == 0);
        },
    }
    assert(forked_once(parse, source, run, derive, r, derived, outcomes));
}

} // verus!
