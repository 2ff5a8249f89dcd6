//! The dispatcher: it owns a command tree, resolves an input against it
//! and says what is to be run.
use vstd::prelude::*;
use crate::arguments::ArgumentType;
use crate::context::{CommandContextBuilder, ContextView};
use crate::exceptions::{BuiltInExceptions, CommandSyntaxException, ExceptionView};
use crate::string_reader::StringReader;
use crate::text::same_text;
use crate::tree::{
    built_from,
    lemma_tried_before_order,
    node_wf,
    same_node,
    tree_wf,
    tried_before,
    ArgumentBuilder,
    ArgumentCommandNode,
    BaseCommandNode,
    CommandNode,
    LiteralCommandNode,
    NodeOutcome,
    RootCommandNode,
    ARGUMENT_SEPARATOR,
};

verus! {

/// A branch that parsing tried and that failed.
#[derive(Debug)]
pub struct FailedBranch {
    pub node: usize,
    pub exception: CommandSyntaxException,
}

impl View for FailedBranch {
    type V = (usize, ExceptionView);

    open spec fn view(&self) -> (usize, ExceptionView) {
        (self.node, self.exception@)
    }
}

/// The failed branches of a list, as plain values.
pub open spec fn branches_of(list: Seq<FailedBranch>) -> Seq<(usize, ExceptionView)> {
    Seq::new(list.len(), |i: int| list[i]@)
}

/// The outcome of a parse, as plain values.
pub struct ResultsView {
    pub context: ContextView,
    pub input: Seq<char>,
    pub cursor: int,
    pub exceptions: Seq<(usize, ExceptionView)>,
    pub ambiguous: bool,
}

/// The outcome of a parse: the context of the path taken, the reader where
/// that path ended, the failure of each branch tried at the node where no
/// branch went on, and whether the path was one of several that took all
/// of the input.
#[derive(Debug)]
pub struct ParseResults {
    context: CommandContextBuilder,
    reader: StringReader,
    exceptions: Vec<FailedBranch>,
    ambiguous: bool,
}

impl View for ParseResults {
    type V = ResultsView;

    closed spec fn view(&self) -> ResultsView {
        ResultsView {
            context: self.context@,
            input: self.reader@.input,
            cursor: self.reader@.cursor,
            exceptions: branches_of(self.exceptions@),
            ambiguous: self.ambiguous,
        }
    }
}

impl ParseResults {
    /// The cursor lies within the input or just past its end.
    pub open spec fn wf(&self) -> bool {
        0 <= self@.cursor <= self@.input.len()
    }

    pub fn get_context(&self) -> (c: &CommandContextBuilder)
        ensures
            c@ == self@.context,
    {
        &self.context
    }

    pub fn get_reader(&self) -> (r: &StringReader)
        ensures
            r@.input == self@.input,
            r@.cursor == self@.cursor,
    {
        &self.reader
    }

    /// Whether, at some node of the path, more than one child took all of
    /// the input without a failed branch. The path goes through the first
    /// of them in trial order.
    pub fn is_ambiguous(&self) -> (a: bool)
        ensures
            a == self@.ambiguous,
    {
        self.ambiguous
    }

    pub fn get_exceptions(&self) -> (e: &Vec<FailedBranch>)
        ensures
            branches_of(e@) == self@.exceptions,
    {
        &self.exceptions
    }
}

/// What trying the child `c` at `cursor` gives: the node's own outcome,
/// which fails where the text it consumed is followed by anything but a
/// separator; on success the context takes the child's executor.
pub open spec fn trial<T: ArgumentType>(
    nodes: Seq<CommandNode<T>>,
    c: usize,
    input: Seq<char>,
    cursor: int,
    context: ContextView,
) -> NodeOutcome {
    match nodes[c as int].outcome(c, input, cursor, context) {
        Ok((after, end)) => if end < input.len() && input[end] != ARGUMENT_SEPARATOR {
            Err((BuiltInExceptions::DispatcherExpectedArgumentSeparator, end))
        } else {
            Ok((after.set_command(nodes[c as int].spec_base().command), end))
        },
        Err(e) => Err(e),
    }
}

/// How good an outcome is, smaller being better: one that took all of the
/// input before one that did not, and among those one without failed
/// branches before one with.
pub open spec fn rank(r: ResultsView) -> int {
    (if r.cursor < r.input.len() { 2int } else { 0int }) + (if r.exceptions.len() > 0 {
        1int
    } else {
        0int
    })
}

/// The better of the best outcome so far and a new one; the earlier one
/// stays where the new one is not strictly better, and is ambiguous where
/// both took all of the input without a failed branch.
pub open spec fn better(best: Option<ResultsView>, new: ResultsView) -> Option<ResultsView> {
    match best {
        Some(b) => if rank(new) < rank(b) {
            Some(new)
        } else {
            Some(ResultsView { ambiguous: b.ambiguous || (rank(new) == 0 && rank(b) == 0), ..b })
        },
        None => Some(new),
    }
}

/// The outcome of parsing `input` from `cursor` in the subtree of `node`,
/// for a source that meets the requirements in `granted`, with `context`
/// gathered so far.
pub open spec fn parse_nodes<T: ArgumentType>(
    nodes: Seq<CommandNode<T>>,
    granted: Seq<u32>,
    input: Seq<char>,
    node: usize,
    cursor: int,
    context: ContextView,
) -> ResultsView
    decreases input.len() - cursor, 1int, 0int,
{
    try_children(nodes, granted, input, node, cursor, context, 0, None, Seq::empty())
}

/// The outcome of trying the children of `node` from the `k`-th in trial
/// order on, with `best` the best outcome of the children before it and
/// `errors` their failures.
///
/// A child that the source cannot use is passed over. A child whose trial
/// fails adds its failure. A child that matches and redirects, with input
/// left after one separator, decides the outcome: parsing goes on at the
/// redirect target with a context of its own, which becomes the child of
/// this one. Any other child that matches is a candidate: with what its own
/// children make of the input after one separator, or as it stands where
/// fewer than two characters are left. At the end the best candidate is the
/// outcome, or, if there is none, the context as it was with the failures.
pub open spec fn try_children<T: ArgumentType>(
    nodes: Seq<CommandNode<T>>,
    granted: Seq<u32>,
    input: Seq<char>,
    node: usize,
    cursor: int,
    context: ContextView,
    k: int,
    best: Option<ResultsView>,
    errors: Seq<(usize, ExceptionView)>,
) -> ResultsView
    decreases input.len() - cursor, 0int, nodes[node as int].spec_base().ordered@.len() - k,
{
    let order = nodes[node as int].spec_base().ordered@;
    if k < 0 || k >= order.len() {
        match best {
            Some(b) => b,
            None => ResultsView { context, input, cursor, exceptions: errors, ambiguous: false },
        }
    } else {
        let c = order[k];
        let base = nodes[c as int].spec_base();
        if !base.usable(granted) {
            try_children(nodes, granted, input, node, cursor, context, k + 1, best, errors)
        } else {
            match trial(nodes, c, input, cursor, context) {
                Err((kind, at)) => try_children(
                    nodes,
                    granted,
                    input,
                    node,
                    cursor,
                    context,
                    k + 1,
                    best,
                    errors.push((c, ExceptionView { kind, input, cursor: at })),
                ),
                Ok((after, end)) => {
                    let needed = if base.redirect is None { 2int } else { 1int };
                    if cursor <= end && end + needed <= input.len() {
                        match base.redirect {
                            Some(target) => {
                                let sub = parse_nodes(
                                    nodes,
                                    granted,
                                    input,
                                    target,
                                    end + 1,
                                    ContextView::fresh(target, (end + 1) as usize),
                                );
                                ResultsView {
                                    context: after.set_child(sub.context),
                                    input,
                                    cursor: sub.cursor,
                                    exceptions: sub.exceptions,
                                    ambiguous: sub.ambiguous,
                                }
                            },
                            None => try_children(
                                nodes,
                                granted,
                                input,
                                node,
                                cursor,
                                context,
                                k + 1,
                                better(best, parse_nodes(nodes, granted, input, c, end + 1, after)),
                                errors,
                            ),
                        }
                    } else {
                        try_children(
                            nodes,
                            granted,
                            input,
                            node,
                            cursor,
                            context,
                            k + 1,
                            better(
                                best,
                                ResultsView {
                                    context: after,
                                    input,
                                    cursor: end,
                                    exceptions: Seq::empty(),
                                    ambiguous: false,
                                },
                            ),
                            errors,
                        )
                    }
                },
            }
        }
    }
}

/// The first offset at or after `from` in `order` of a node that is not
/// tried before `node`, or the length of `order` if there is none.
pub open spec fn trial_place<T: ArgumentType>(
    nodes: Seq<CommandNode<T>>,
    order: Seq<usize>,
    node: CommandNode<T>,
    from: int,
) -> int
    decreases order.len() - from,
{
    if 0 <= from < order.len() && tried_before(nodes[order[from] as int], node) {
        trial_place(nodes, order, node, from + 1)
    } else {
        from
    }
}

/// `trial_place` from `from` is the first `p` whose node is not tried
/// before `node`, or the length.
pub proof fn lemma_trial_place_is<T: ArgumentType>(
    nodes: Seq<CommandNode<T>>,
    order: Seq<usize>,
    node: CommandNode<T>,
    from: int,
    p: int,
)
    requires
        0 <= from <= p <= order.len(),
        forall|i: int| from <= i < p ==> tried_before(nodes[#[trigger] order[i] as int], node),
        p == order.len() || !tried_before(nodes[order[p] as int], node),
    ensures
        trial_place(nodes, order, node, from) == p,
    decreases p - from,
{
    if from < p {
        lemma_trial_place_is(nodes, order, node, from + 1, p);
    }
}

/// Whether one of the nodes at `children` has the name `name`.
pub open spec fn has_child_named<T: ArgumentType>(
    nodes: Seq<CommandNode<T>>,
    children: Seq<usize>,
    name: Seq<char>,
) -> bool {
    exists|k: int| 0 <= k < children.len() && nodes[#[trigger] children[k] as int].spec_name() == name
}

/// Why a node built from `builder` cannot become a child of `parent`, if it
/// cannot: the parent or the builder's redirect target is no node of the
/// tree, the parent redirects, or a child of the parent has the name.
pub open spec fn refusal<T: ArgumentType>(
    nodes: Seq<CommandNode<T>>,
    parent: usize,
    builder: ArgumentBuilder<T>,
) -> Option<BuiltInExceptions> {
    if parent >= nodes.len() {
        Some(BuiltInExceptions::BuilderUnknownNode)
    } else if builder.spec_base().redirect matches Some(t) && t >= nodes.len() {
        Some(BuiltInExceptions::BuilderUnknownNode)
    } else if nodes[parent as int].spec_base().redirect is Some {
        Some(BuiltInExceptions::BuilderRedirectedParent)
    } else if has_child_named(
        nodes,
        nodes[parent as int].spec_base().children@,
        builder.spec_name(),
    ) {
        Some(BuiltInExceptions::BuilderDuplicateChild)
    } else {
        None
    }
}

/// Whether `granted` is what asking `holds` about the requirements of the
/// tree gave for `source`: each requirement in it is one of a node and held
/// when it was asked, and each requirement of a node that is not in it did
/// not hold when it was asked.
pub open spec fn granted_by<T: ArgumentType, S, F: Fn(u32, &S) -> bool>(
    nodes: Seq<CommandNode<T>>,
    source: &S,
    holds: &F,
    granted: Seq<u32>,
) -> bool {
    &&& forall|i: int|
        0 <= i < granted.len() ==> call_ensures(holds, (#[trigger] granted[i], source), true)
    &&& forall|n: int|
        0 <= n < nodes.len() ==> ((#[trigger] nodes[n]).spec_base().requirement matches Some(r)
            ==> granted.contains(r) || call_ensures(holds, (r, source), false))
}

/// The view of an outcome that may not be there.
pub open spec fn optional_view(r: Option<ParseResults>) -> Option<ResultsView> {
    match r {
        Some(p) => Some(p@),
        None => None,
    }
}

fn known(list: &Vec<u32>, r: u32) -> (found: bool)
    ensures
        found == list@.contains(r),
{
    let mut i: usize = 0;
    while i < list.len()
        invariant
            i <= list.len(),
            forall|k: int| 0 <= k < i ==> list@[k] != r,
        decreases list.len() - i,
    {
        if list[i] == r {
            return true;
        }
        i = i + 1;
    }
    false
}

fn rank_of(r: &ParseResults) -> (n: u8)
    ensures
        n == rank(r@),
        r.wf(),
{
    proof {
        use_type_invariant(&r.reader);
    }
    let a: u8 = if r.reader.can_read() { 2 } else { 0 };
    let b: u8 = if r.exceptions.len() > 0 { 1 } else { 0 };
    a + b
}

fn pick(best: Option<ParseResults>, new: ParseResults) -> (out: Option<ParseResults>)
    ensures
        optional_view(out) == better(optional_view(best), new@),
        out is Some,
{
    match best {
        Some(b) => {
            let old_rank: u8 = rank_of(&b);
            let new_rank: u8 = rank_of(&new);
            if new_rank < old_rank {
                Some(new)
            } else {
                let mut b = b;
                if new_rank == 0 && old_rank == 0 {
                    b.ambiguous = true;
                }
                Some(b)
            }
        },
        None => Some(new),
    }
}

/// `after` is `before` with one node more, added as a child of `parent`
/// at `place` in trial order: the node is not the root, has no children,
/// a name that no child of `parent` had, and a redirect target, if any, in
/// the tree; `place` is where trial order wants it; `parent` does not
/// redirect; and nothing else changed.
pub open spec fn grown<T: ArgumentType>(
    before: Seq<CommandNode<T>>,
    after: Seq<CommandNode<T>>,
    parent: usize,
    place: int,
) -> bool {
    let id = before.len() as int;
    let node = after[id];
    let old_base = before[parent as int].spec_base();
    let new_base = after[parent as int].spec_base();
    &&& parent < before.len()
    &&& after.len() == before.len() + 1
    &&& id <= usize::MAX
    &&& forall|i: int| 0 <= i < id && i != parent ==> #[trigger] after[i] == before[i]
    &&& same_node(before[parent as int], after[parent as int])
    &&& new_base.children@ == old_base.children@.push(id as usize)
    &&& new_base.ordered@ == old_base.ordered@.insert(place, id as usize)
    &&& old_base.redirect is None
    &&& 0 <= place <= old_base.ordered@.len()
    &&& forall|j: int| 0 <= j < place ==> tried_before(before[#[trigger] old_base.ordered@[j] as int], node)
    &&& place == old_base.ordered@.len() || !tried_before(
        before[old_base.ordered@[place] as int],
        node,
    )
    &&& !has_child_named(before, old_base.children@, node.spec_name())
    &&& !(node is Root)
    &&& node.spec_base().children@.len() == 0
    &&& node.spec_base().ordered@.len() == 0
    &&& node.spec_base().redirect matches Some(t) ==> t < before.len()
}

/// In a tree that has grown, the nodes that were there have their kind and
/// name as before.
proof fn lemma_grown_names<T: ArgumentType>(
    before: Seq<CommandNode<T>>,
    after: Seq<CommandNode<T>>,
    parent: usize,
    place: int,
)
    requires
        grown(before, after, parent, place),
    ensures
        forall|i: int|
            0 <= i < before.len() ==> (#[trigger] after[i]).spec_name() == before[i].spec_name() && (
            after[i] is Argument) == (before[i] is Argument) && (after[i] is Root) == (
            before[i] is Root),
{
    assert forall|i: int| 0 <= i < before.len() implies (#[trigger] after[i]).spec_name()
        == before[i].spec_name() && (after[i] is Argument) == (before[i] is Argument) && (
    after[i] is Root) == (before[i] is Root) by {
        if i != parent {
            assert(after[i] == before[i]);
        }
    }
}

/// In a tree that has grown, a node other than the parent and the new one
/// is well-formed as it was.
proof fn lemma_grown_other<T: ArgumentType>(
    before: Seq<CommandNode<T>>,
    after: Seq<CommandNode<T>>,
    parent: usize,
    place: int,
    i: int,
)
    requires
        grown(before, after, parent, place),
        0 <= i < before.len(),
        i != parent,
        node_wf(before, i),
    ensures
        node_wf(after, i),
{
    lemma_grown_names(before, after, parent, place);
    assert(after[i] == before[i]);
    let base = after[i].spec_base();
    assert forall|a: int, b: int| 0 <= a < b < base.ordered@.len() implies tried_before(
        after[base.ordered@[a] as int],
        after[base.ordered@[b] as int],
    ) by {
        assert(base.children@.contains(base.ordered@[a]));
        assert(base.children@.contains(base.ordered@[b]));
        assert(tried_before(before[base.ordered@[a] as int], before[base.ordered@[b] as int]));
        assert(after[base.ordered@[a] as int].spec_name() == before[base.ordered@[a] as int].spec_name());
        assert(after[base.ordered@[b] as int].spec_name() == before[base.ordered@[b] as int].spec_name());
    }
    assert forall|a: int, b: int| 0 <= a < b < base.children@.len() implies after[base.children@[a] as int].spec_name()
        != after[base.children@[b] as int].spec_name() by {
        assert(after[base.children@[a] as int].spec_name() == before[base.children@[a] as int].spec_name());
        assert(after[base.children@[b] as int].spec_name() == before[base.children@[b] as int].spec_name());
    }
}

/// In a tree that has grown, the trial order of the parent is in order.
proof fn lemma_grown_parent_order<T: ArgumentType>(
    before: Seq<CommandNode<T>>,
    after: Seq<CommandNode<T>>,
    parent: usize,
    place: int,
    a: int,
    b: int,
)
    requires
        grown(before, after, parent, place),
        node_wf(before, parent as int),
        0 <= a < b < after[parent as int].spec_base().ordered@.len(),
    ensures
        tried_before(
            after[after[parent as int].spec_base().ordered@[a] as int],
            after[after[parent as int].spec_base().ordered@[b] as int],
        ),
{
    lemma_grown_names(before, after, parent, place);
    let id = before.len() as int;
    let node = after[id];
    let old_order = before[parent as int].spec_base().ordered@;
    let old_children = before[parent as int].spec_base().children@;
    let new_order = after[parent as int].spec_base().ordered@;
    let a0 = if a < place { a } else { a - 1 };
    let b0 = if b < place { b } else { b - 1 };
    if a != place {
        assert(new_order[a] == old_order[a0]);
        assert(old_children.contains(old_order[a0]));
        assert(after[old_order[a0] as int].spec_name() == before[old_order[a0] as int].spec_name());
    }
    if b != place {
        assert(new_order[b] == old_order[b0]);
        assert(old_children.contains(old_order[b0]));
        assert(after[old_order[b0] as int].spec_name() == before[old_order[b0] as int].spec_name());
    }
    if a != place && b != place {
        assert(tried_before(before[old_order[a0] as int], before[old_order[b0] as int]));
    } else if a == place {
        assert(new_order[a] == id);
        assert(old_children.contains(old_order[place]));
        let first = before[old_order[place] as int];
        let there = before[old_order[b0] as int];
        let w = choose|w: int| 0 <= w < old_children.len() && old_children[w] == old_order[place];
        assert(before[old_children[w] as int].spec_name() != node.spec_name());
        lemma_tried_before_order(node, first, there);
        lemma_tried_before_order(first, node, there);
        if b0 > place {
            assert(tried_before(first, there));
        }
    } else {
        assert(new_order[b] == id);
        assert(tried_before(before[old_order[a0] as int], node));
    }
}

/// In a tree that has grown, the parent is well-formed.
proof fn lemma_grown_parent<T: ArgumentType>(
    before: Seq<CommandNode<T>>,
    after: Seq<CommandNode<T>>,
    parent: usize,
    place: int,
)
    requires
        grown(before, after, parent, place),
        node_wf(before, parent as int),
    ensures
        node_wf(after, parent as int),
{
    lemma_grown_names(before, after, parent, place);
    let id = before.len() as int;
    let node = after[id];
    let old_order = before[parent as int].spec_base().ordered@;
    let old_children = before[parent as int].spec_base().children@;
    let new_order = after[parent as int].spec_base().ordered@;
    let new_children = after[parent as int].spec_base().children@;
    assert forall|a: int| 0 <= a < new_order.len() implies new_children.contains(
        #[trigger] new_order[a],
    ) by {
        if a == place {
            assert(new_children[old_children.len() as int] == id);
        } else {
            let a0 = if a < place { a } else { a - 1 };
            assert(new_order[a] == old_order[a0]);
            assert(old_children.contains(old_order[a0]));
            let w = choose|w: int| 0 <= w < old_children.len() && old_children[w] == old_order[a0];
            assert(new_children[w] == old_order[a0]);
        }
    }
    assert forall|a: int| 0 <= a < new_children.len() implies new_order.contains(
        #[trigger] new_children[a],
    ) by {
        if a == old_children.len() {
            assert(new_order[place] == id);
        } else {
            assert(old_order.contains(old_children[a]));
            let w = choose|w: int| 0 <= w < old_order.len() && old_order[w] == old_children[a];
            let w1 = if w < place { w } else { w + 1 };
            assert(new_order[w1] == old_children[a]);
        }
    }
    assert forall|a: int, b: int| 0 <= a < b < new_order.len() implies tried_before(
        after[new_order[a] as int],
        after[new_order[b] as int],
    ) by {
        lemma_grown_parent_order(before, after, parent, place, a, b);
    }
    assert forall|a: int, b: int| 0 <= a < b < new_children.len() implies after[new_children[a] as int].spec_name()
        != after[new_children[b] as int].spec_name() by {
        assert(after[old_children[a] as int].spec_name() == before[old_children[a] as int].spec_name());
        if b == old_children.len() {
            assert(before[old_children[a] as int].spec_name() != node.spec_name());
        } else {
            assert(after[old_children[b] as int].spec_name() == before[old_children[b] as int].spec_name());
        }
    }
    assert forall|k: int| 0 <= k < new_children.len() implies parent < #[trigger] new_children[k]
        < after.len() by {
        if k < old_children.len() {
            assert(new_children[k] == old_children[k]);
        }
    }
}

/// A well-formed tree that has grown is well-formed.
pub proof fn lemma_grown_wf<T: ArgumentType>(
    before: Seq<CommandNode<T>>,
    after: Seq<CommandNode<T>>,
    parent: usize,
    place: int,
)
    requires
        tree_wf(before),
        grown(before, after, parent, place),
    ensures
        tree_wf(after),
{
    assert forall|i: int| 0 <= i < after.len() implies node_wf(after, i) by {
        if i == before.len() {
        } else if i == parent {
            lemma_grown_parent(before, after, parent, place);
        } else {
            lemma_grown_other(before, after, parent, place, i);
        }
    }
}

/// The nodes of a tree, which is well-formed.
struct Tree<T: ArgumentType> {
    nodes: Vec<CommandNode<T>>,
}

impl<T: ArgumentType> Tree<T> {
    #[verifier::type_invariant]
    spec fn well_formed(&self) -> bool {
        tree_wf(self.nodes@)
    }

    /// A root alone.
    fn new() -> (t: Self)
        ensures
            t.nodes@.len() == 1,
    {
        let mut nodes: Vec<CommandNode<T>> = Vec::new();
        nodes.push(CommandNode::Root(RootCommandNode::new()));
        assert(node_wf(nodes@, 0));
        Tree { nodes }
    }
}

/// A command tree and what is done with it.
pub struct CommandDispatcher<T: ArgumentType> {
    tree: Tree<T>,
    exclusive_literals: bool,
}

impl<T: ArgumentType> CommandDispatcher<T> {
    /// The nodes of the tree; the root is the first.
    pub closed spec fn tree(&self) -> Seq<CommandNode<T>> {
        self.tree.nodes@
    }

    /// The tree is well-formed. This holds of every dispatcher.
    pub open spec fn wf(&self) -> bool {
        tree_wf(self.tree())
    }

    /// Whether a literal that has been typed in full keeps its siblings
    /// from being offered as completions.
    pub closed spec fn exclusive(&self) -> bool {
        self.exclusive_literals
    }

    pub fn is_exclusive(&self) -> (r: bool)
        ensures
            r == self.exclusive(),
    {
        self.exclusive_literals
    }

    /// Sets whether a literal that has been typed in full keeps its
    /// siblings from being offered as completions.
    pub fn set_exclusive(&mut self, on: bool)
        ensures
            final(self).exclusive() == on,
            final(self).tree() == old(self).tree(),
    {
        self.exclusive_literals = on;
    }

    /// A dispatcher whose tree is a root alone.
    pub fn new() -> (d: Self)
        ensures
            d.wf(),
            d.tree().len() == 1,
            !d.exclusive(),
    {
        let tree = Tree::new();
        proof {
            use_type_invariant(&tree);
        }
        CommandDispatcher { tree, exclusive_literals: false }
    }

    /// The offset of the root.
    pub fn get_root(&self) -> (r: usize)
        ensures
            r == 0,
    {
        0
    }

    /// The number of nodes in the tree, which is well-formed.
    pub fn node_count(&self) -> (n: usize)
        ensures
            n == self.tree().len(),
            self.wf(),
    {
        proof {
            use_type_invariant(&self.tree);
        }
        self.tree.nodes.len()
    }

    pub fn get_node(&self, id: usize) -> (n: &CommandNode<T>)
        requires
            id < self.tree().len(),
        ensures
            *n == self.tree()[id as int],
    {
        &self.tree.nodes[id]
    }

    /// Adds the node that `builder` describes as a child of `parent` and
    /// returns its offset. Nothing changes where this fails.
    pub fn add_child(&mut self, parent: usize, builder: ArgumentBuilder<T>) -> (r: Result<
        usize,
        CommandSyntaxException,
    >)
        requires
            old(self).tree().len() < usize::MAX,
        ensures
            final(self).wf(),
            final(self).exclusive() == old(self).exclusive(),
            match refusal(old(self).tree(), parent, builder) {
                Some(kind) => r matches Err(e) && e@ == (ExceptionView {
                    kind,
                    input: builder.spec_name(),
                    cursor: 0,
                }) && final(self).tree() == old(self).tree(),
                None => {
                    let before = old(self).tree();
                    let after = final(self).tree();
                    &&& r matches Ok(id)
                    &&& id == before.len()
                    &&& after.len() == id + 1
                    &&& built_from(builder, after[id as int])
                    &&& forall|i: int| 0 <= i < id && i != parent ==> after[i] == before[i]
                    &&& same_node(before[parent as int], after[parent as int])
                    &&& after[parent as int].spec_base().children@
                        == before[parent as int].spec_base().children@.push(id)
                    &&& after[parent as int].spec_base().ordered@
                        == before[parent as int].spec_base().ordered@.insert(
                        trial_place(
                            before,
                            before[parent as int].spec_base().ordered@,
                            after[id as int],
                            0,
                        ),
                        id,
                    )
                },
            },
    {
        proof {
            use_type_invariant(&self.tree);
        }
        let name = builder.name_chars();
        let ghost before = self.tree();
        let id: usize = self.tree.nodes.len();
        if parent >= id {
            return Err(CommandSyntaxException::new(BuiltInExceptions::BuilderUnknownNode, &name, 0));
        }
        match builder.base().redirect {
            Some(t) => {
                if t >= id {
                    return Err(
                        CommandSyntaxException::new(BuiltInExceptions::BuilderUnknownNode, &name, 0),
                    );
                }
            },
            None => {},
        }
        assert(node_wf(before, parent as int));
        if self.tree.nodes[parent].base().redirect.is_some() {
            return Err(
                CommandSyntaxException::new(BuiltInExceptions::BuilderRedirectedParent, &name, 0),
            );
        }
        let children = &self.tree.nodes[parent].base().children;
        let mut k: usize = 0;
        while k < children.len()
            invariant
                k <= children.len(),
                *self == *old(self),
                self.wf(),
                before == self.tree(),
                parent < before.len(),
                name@ == builder.spec_name(),
                builder.spec_base().redirect matches Some(t) ==> t < before.len(),
                before[parent as int].spec_base().redirect is None,
                node_wf(before, parent as int),
                children@ == before[parent as int].spec_base().children@,
                forall|j: int| 0 <= j < k ==> before[#[trigger] children@[j] as int].spec_name() != name@,
            decreases children.len() - k,
        {
            let c: usize = children[k];
            if same_text(&self.tree.nodes[c].name_chars(), &name) {
                assert(before[children@[k as int] as int].spec_name() == name@);
                return Err(
                    CommandSyntaxException::new(BuiltInExceptions::BuilderDuplicateChild, &name, 0),
                );
            }
            k = k + 1;
        }
        assert(!has_child_named(before, children@, name@));
        let node = builder.build();
        let order = &self.tree.nodes[parent].base().ordered;
        let mut place: usize = 0;
        while place < order.len() && self.tree.nodes[order[place]].comes_first(&node)
            invariant
                place <= order.len(),
                before == self.tree(),
                parent < before.len(),
                node_wf(before, parent as int),
                order@ == before[parent as int].spec_base().ordered@,
                forall|j: int| 0 <= j < place ==> tried_before(before[#[trigger] order@[j] as int], node),
            decreases order.len() - place,
        {
            place = place + 1;
        }
        proof {
            lemma_trial_place_is(before, order@, node, 0, place as int);
        }
        let ghost old_order = order@;
        let ghost old_children = children@;
        let mut held = Tree::new();
        std::mem::swap(&mut self.tree, &mut held);
        let mut nodes = held.nodes;
        let taken = nodes.remove(parent);
        nodes.insert(parent, taken.adopt(id, place));
        nodes.push(node);
        proof {
            let after = nodes@;
            assert(after[id as int] == node);
            assert(grown(before, after, parent, place as int));
            lemma_grown_wf(before, after, parent, place as int);
        }
        self.tree = Tree { nodes };
        Ok(id)
    }

    /// Adds the node that `builder` describes as a child of the root.
    pub fn register(&mut self, builder: ArgumentBuilder<T>) -> (r: Result<
        usize,
        CommandSyntaxException,
    >)
        requires
            old(self).tree().len() < usize::MAX,
        ensures
            final(self).wf(),
            final(self).exclusive() == old(self).exclusive(),
            match refusal(old(self).tree(), 0, builder) {
                Some(kind) => r matches Err(e) && e@ == (ExceptionView {
                    kind,
                    input: builder.spec_name(),
                    cursor: 0,
                }) && final(self).tree() == old(self).tree(),
                None => r == Ok::<usize, CommandSyntaxException>(old(self).tree().len() as usize)
                    && final(self).tree().len() == old(self).tree().len() + 1 && built_from(
                    builder,
                    final(self).tree()[old(self).tree().len() as int],
                ),
            },
    {
        self.add_child(0, builder)
    }

    fn parse_nodes(
        &self,
        granted: &Vec<u32>,
        node: usize,
        entry: &StringReader,
        context_so_far: &CommandContextBuilder,
    ) -> (r: ParseResults)
        requires
            node < self.tree().len(),
        ensures
            r.wf(),
            r@.input == entry@.input,
            r@ == parse_nodes(
                self.tree(),
                granted@,
                entry@.input,
                node,
                entry@.cursor,
                context_so_far@,
            ),
        decreases entry@.input.len() - entry@.cursor,
    {
        proof {
            use_type_invariant(entry);
            use_type_invariant(&self.tree);
        }
        let cursor: usize = entry.get_cursor();
        let ghost input = entry@.input;
        let ghost nodes = self.tree();
        let ghost context = context_so_far@;
        let mut errors: Vec<FailedBranch> = Vec::new();
        let mut best: Option<ParseResults> = None;
        assert(node_wf(nodes, node as int));
        let order = &self.tree.nodes[node].base().ordered;
        assert(branches_of(errors@) =~= Seq::empty());
        let mut k: usize = 0;
        while k < order.len()
            invariant
                self.wf(),
                nodes == self.tree(),
                node < nodes.len(),
                node_wf(nodes, node as int),
                order@ == nodes[node as int].spec_base().ordered@,
                input == entry@.input,
                cursor == entry@.cursor,
                cursor <= input.len(),
                context == context_so_far@,
                k <= order.len(),
                best matches Some(b) ==> b@.input == input,
                parse_nodes(nodes, granted@, input, node, cursor as int, context) == try_children(
                    nodes,
                    granted@,
                    input,
                    node,
                    cursor as int,
                    context,
                    k as int,
                    optional_view(best),
                    branches_of(errors@),
                ),
            decreases order.len() - k,
        {
            let c: usize = order[k];
            assert(nodes[node as int].spec_base().children@.contains(order@[k as int]));
            assert(c < nodes.len());
            let child = &self.tree.nodes[c];
            if child.base().can_use(granted) {
                let mut context_builder = context_so_far.duplicate();
                let mut reader = entry.duplicate();
                proof {
                    child.lemma_outcome_advances(c, input, cursor as int, context);
                }
                match child.parse(c, &mut reader, &mut context_builder) {
                    Err(e) => {
                        let ghost before = errors@;
                        errors.push(FailedBranch { node: c, exception: e });
                        assert(branches_of(errors@) =~= branches_of(before).push((c, e@)));
                    },
                    Ok(()) => {
                        let end: usize = reader.get_cursor();
                        if reader.can_read() && reader.peek() != ARGUMENT_SEPARATOR {
                            let e = CommandSyntaxException::new(
                                BuiltInExceptions::DispatcherExpectedArgumentSeparator,
                                reader.chars(),
                                end,
                            );
                            let ghost before = errors@;
                            errors.push(FailedBranch { node: c, exception: e });
                            assert(branches_of(errors@) =~= branches_of(before).push((c, e@)));
                        } else {
                            context_builder.with_command(child.base().command);
                            let needed: usize = if child.base().redirect.is_none() { 2 } else { 1 };
                            if reader.can_read_length(needed) {
                                reader.skip();
                                match child.base().redirect {
                                    Some(target) => {
                                        assert(node_wf(nodes, c as int));
                                        let child_context = CommandContextBuilder::new(
                                            target,
                                            reader.get_cursor(),
                                        );
                                        let sub = self.parse_nodes(
                                            granted,
                                            target,
                                            &reader,
                                            &child_context,
                                        );
                                        context_builder.with_child(sub.context);
                                        proof {
                                            use_type_invariant(&sub.reader);
                                        }
                                        return ParseResults {
                                            context: context_builder,
                                            reader: sub.reader,
                                            exceptions: sub.exceptions,
                                            ambiguous: sub.ambiguous,
                                        };
                                    },
                                    None => {
                                        let sub = self.parse_nodes(
                                            granted,
                                            c,
                                            &reader,
                                            &context_builder,
                                        );
                                        best = pick(best, sub);
                                    },
                                }
                            } else {
                                let found = ParseResults {
                                    context: context_builder,
                                    reader,
                                    exceptions: Vec::new(),
                                    ambiguous: false,
                                };
                                assert(found@.exceptions =~= Seq::empty());
                                best = pick(best, found);
                            }
                        }
                    },
                }
            }
            k = k + 1;
        }
        match best {
            Some(b) => {
                proof {
                    use_type_invariant(&b.reader);
                }
                b
            },
            None => ParseResults {
                context: context_so_far.duplicate(),
                reader: entry.duplicate(),
                exceptions: errors,
                ambiguous: false,
            },
        }
    }

    /// Asks `holds`, the embedder's way to test the requirement behind a
    /// handle, about each requirement of the tree once, and returns those
    /// that hold for `source`.
    pub fn granted_for<S, F: Fn(u32, &S) -> bool>(&self, source: &S, holds: &F) -> (granted: Vec<u32>)
        requires
            forall|r: u32, s: &S| call_requires(holds, (r, s)),
        ensures
            granted_by(self.tree(), source, holds, granted@),
    {
        let mut granted: Vec<u32> = Vec::new();
        let mut denied: Vec<u32> = Vec::new();
        let mut n: usize = 0;
        while n < self.tree.nodes.len()
            invariant
                n <= self.tree.nodes.len(),
                forall|r: u32, s: &S| call_requires(holds, (r, s)),
                forall|i: int|
                    0 <= i < granted@.len() ==> call_ensures(
                        holds,
                        (#[trigger] granted@[i], source),
                        true,
                    ),
                forall|i: int|
                    0 <= i < denied@.len() ==> call_ensures(
                        holds,
                        (#[trigger] denied@[i], source),
                        false,
                    ),
                forall|k: int|
                    0 <= k < n ==> ((#[trigger] self.tree.nodes@[k]).spec_base().requirement matches Some(
                        r,
                    ) ==> granted@.contains(r) || denied@.contains(r)),
            decreases self.tree.nodes.len() - n,
        {
            match self.tree.nodes[n].base().requirement {
                Some(r) => {
                    if !known(&granted, r) && !known(&denied, r) {
                        let ghost g = granted@;
                        let ghost d = denied@;
                        if holds(r, source) {
                            granted.push(r);
                            assert(granted@[g.len() as int] == r);
                        } else {
                            denied.push(r);
                            assert(denied@[d.len() as int] == r);
                        }
                        assert forall|k: int| 0 <= k < n implies ((#[trigger] self.tree.nodes@[k]).spec_base().requirement matches Some(
                            q,
                        ) ==> granted@.contains(q) || denied@.contains(q)) by {
                            match self.tree.nodes@[k].spec_base().requirement {
                                Some(q) => {
                                    if g.contains(q) {
                                        let w = choose|w: int| 0 <= w < g.len() && g[w] == q;
                                        assert(granted@[w] == q);
                                    } else {
                                        let w = choose|w: int| 0 <= w < d.len() && d[w] == q;
                                        assert(denied@[w] == q);
                                    }
                                },
                                None => {},
                            }
                        }
                    }
                },
                None => {},
            }
            n = n + 1;
        }
        proof {
            assert forall|k: int| 0 <= k < self.tree.nodes@.len() implies ((#[trigger] self.tree.nodes@[k]).spec_base().requirement matches Some(
                r,
            ) ==> granted@.contains(r) || call_ensures(holds, (r, source), false)) by {
                match self.tree.nodes@[k].spec_base().requirement {
                    Some(r) => {
                        if !granted@.contains(r) {
                            let w = choose|w: int| 0 <= w < denied@.len() && denied@[w] == r;
                            assert(call_ensures(holds, (denied@[w], source), false));
                        }
                    },
                    None => {},
                }
            }
        }
        granted
    }

    /// Resolves `input` against the tree for `source`, with `holds` the
    /// embedder's way to test the requirement behind a handle.
    pub fn parse_for<S, F: Fn(u32, &S) -> bool>(
        &self,
        input: &str,
        source: &S,
        holds: &F,
    ) -> (r: ParseResults)
        requires
            forall|r: u32, s: &S| call_requires(holds, (r, s)),
        ensures
            r.wf(),
            exists|granted: Seq<u32>|
                granted_by(self.tree(), source, holds, granted) && r@ == parse_nodes(
                    self.tree(),
                    granted,
                    input@,
                    0,
                    0,
                    ContextView::fresh(0, 0),
                ),
    {
        let granted = self.granted_for(source, holds);
        self.parse(input, &granted)
    }

    /// Resolves `input` against the tree, for a source that meets the
    /// requirements in `granted`. This never fails: what did not match is
    /// in the outcome.
    pub fn parse(&self, input: &str, granted: &Vec<u32>) -> (r: ParseResults)
        ensures
            r.wf(),
            r@ == parse_nodes(self.tree(), granted@, input@, 0, 0, ContextView::fresh(0, 0)),
    {
        proof {
            use_type_invariant(&self.tree);
        }
        let reader = StringReader::new(input);
        let context = CommandContextBuilder::new(0, reader.get_cursor());
        self.parse_nodes(granted, 0, &reader, &context)
    }
}

} // verus!
