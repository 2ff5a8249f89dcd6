//! Usage texts: one line for each way a command can be written.
use vstd::prelude::*;
use crate::arguments::ArgumentType;
use crate::dispatcher::CommandDispatcher;
use crate::text::{copy_text, to_chars, to_text};
use crate::tree::{node_wf, tree_wf, CommandNode, ARGUMENT_SEPARATOR};

verus! {

/// `piece` after `prefix` and a separator; `piece` alone after nothing.
pub open spec fn joined(prefix: Seq<char>, piece: Seq<char>) -> Seq<char> {
    if prefix.len() == 0 {
        piece
    } else {
        prefix + seq![ARGUMENT_SEPARATOR] + piece
    }
}

/// How a redirect is shown: to the root as `...`, to another node as `->`
/// and the node's usage text.
pub open spec fn redirect_text<T: ArgumentType>(nodes: Seq<CommandNode<T>>, target: usize) -> Seq<char> {
    if target == 0 {
        seq!['.', '.', '.']
    } else {
        seq!['-', '>', ' '] + nodes[target as int].spec_usage()
    }
}

/// The usage lines of the subtree of `node`, each after `prefix`, which is
/// how the path to `node` is written.
///
/// Nothing where usage is `restricted` to what the source can use and it
/// cannot use `node`. Else `prefix` itself, where `node` has an executor;
/// and then the line of its redirect, where it has one, or the lines of its
/// children, in the order they were added.
pub open spec fn all_usage<T: ArgumentType>(
    nodes: Seq<CommandNode<T>>,
    granted: Seq<u32>,
    restricted: bool,
    node: usize,
    prefix: Seq<char>,
) -> Seq<Seq<char>>
    decreases nodes.len() - node, 1int, 0int,
{
    let base = nodes[node as int].spec_base();
    if node >= nodes.len() || (restricted && !base.usable(granted)) {
        Seq::empty()
    } else {
        let own = if base.command is Some {
            seq![prefix]
        } else {
            Seq::empty()
        };
        match base.redirect {
            Some(target) => own.push(
                joined(
                    if prefix.len() == 0 {
                        nodes[node as int].spec_usage()
                    } else {
                        prefix
                    },
                    redirect_text(nodes, target),
                ),
            ),
            None => own + usage_of_children(nodes, granted, restricted, node, prefix, 0),
        }
    }
}

/// The usage lines of the children of `node` from the `k`-th on.
pub open spec fn usage_of_children<T: ArgumentType>(
    nodes: Seq<CommandNode<T>>,
    granted: Seq<u32>,
    restricted: bool,
    node: usize,
    prefix: Seq<char>,
    k: int,
) -> Seq<Seq<char>>
    decreases nodes.len() - node, 0int, nodes[node as int].spec_base().children@.len() - k,
{
    let children = nodes[node as int].spec_base().children@;
    if k < 0 || k >= children.len() {
        Seq::empty()
    } else {
        let c = children[k];
        (if node < c < nodes.len() {
            all_usage(nodes, granted, restricted, c, joined(prefix, nodes[c as int].spec_usage()))
        } else {
            Seq::empty()
        }) + usage_of_children(nodes, granted, restricted, node, prefix, k + 1)
    }
}

/// The texts of a list of lines.
pub open spec fn lines_of(lines: Seq<Vec<char>>) -> Seq<Seq<char>> {
    Seq::new(lines.len(), |i: int| lines[i]@)
}

fn join(prefix: &Vec<char>, piece: &Vec<char>) -> (out: Vec<char>)
    ensures
        out@ == joined(prefix@, piece@),
{
    if prefix.len() == 0 {
        return copy_text(piece);
    }
    let mut out = copy_text(prefix);
    out.push(ARGUMENT_SEPARATOR);
    let ghost head = out@;
    let mut i: usize = 0;
    while i < piece.len()
        invariant
            i <= piece.len(),
            out@ == head + piece@.subrange(0, i as int),
        decreases piece.len() - i,
    {
        out.push(piece[i]);
        i = i + 1;
    }
    assert(piece@.subrange(0, i as int) =~= piece@);
    out
}

impl<T: ArgumentType> CommandDispatcher<T> {
    fn redirect_line(&self, target: usize) -> (out: Vec<char>)
        requires
            target < self.tree().len(),
        ensures
            out@ == redirect_text(self.tree(), target),
    {
        let mut out: Vec<char> = Vec::new();
        if target == 0 {
            out.push('.');
            out.push('.');
            out.push('.');
            assert(out@ =~= seq!['.', '.', '.']);
            return out;
        }
        out.push('-');
        out.push('>');
        out.push(' ');
        let usage = self.get_node(target).usage_text();
        let usage = to_chars(usage.as_str());
        let ghost head = out@;
        let mut i: usize = 0;
        while i < usage.len()
            invariant
                i <= usage.len(),
                out@ == head + usage@.subrange(0, i as int),
            decreases usage.len() - i,
        {
            out.push(usage[i]);
            i = i + 1;
        }
        assert(usage@.subrange(0, i as int) =~= usage@);
        assert(head =~= seq!['-', '>', ' ']);
        out
    }

    fn usage_into(
        &self,
        granted: &Vec<u32>,
        restricted: bool,
        node: usize,
        prefix: &Vec<char>,
        result: &mut Vec<Vec<char>>,
    )
        requires
            self.wf(),
            node < self.tree().len(),
        ensures
            lines_of(final(result)@) == lines_of(old(result)@) + all_usage(
                self.tree(),
                granted@,
                restricted,
                node,
                prefix@,
            ),
        decreases self.tree().len() - node,
    {
        let ghost nodes = self.tree();
        let ghost start = lines_of(result@);
        let this = self.get_node(node);
        let base = this.base();
        assert(node_wf(nodes, node as int));
        if restricted && !base.can_use(granted) {
            assert(lines_of(result@) =~= start + Seq::<Seq<char>>::empty());
            return ;
        }
        if base.command.is_some() {
            let ghost before = result@;
            result.push(copy_text(prefix));
            assert(lines_of(result@) =~= lines_of(before).push(prefix@));
        }
        let ghost own = if base.command is Some {
            seq![prefix@]
        } else {
            Seq::<Seq<char>>::empty()
        };
        assert(lines_of(result@) =~= start + own);
        match base.redirect {
            Some(target) => {
                let redirect = self.redirect_line(target);
                let line = if prefix.len() == 0 {
                    let usage = this.usage_text();
                    join(&to_chars(usage.as_str()), &redirect)
                } else {
                    join(prefix, &redirect)
                };
                let ghost before = result@;
                result.push(line);
                assert(lines_of(result@) =~= lines_of(before).push(line@));
                assert(lines_of(result@) =~= start + own.push(line@));
            },
            None => {
                let children = &base.children;
                let mut k: usize = 0;
                while k < children.len()
                    invariant
                        self.wf(),
                        nodes == self.tree(),
                        node < nodes.len(),
                        node_wf(nodes, node as int),
                        children@ == nodes[node as int].spec_base().children@,
                        k <= children.len(),
                        lines_of(result@) + usage_of_children(
                            nodes,
                            granted@,
                            restricted,
                            node,
                            prefix@,
                            k as int,
                        ) == start + own + usage_of_children(
                            nodes,
                            granted@,
                            restricted,
                            node,
                            prefix@,
                            0,
                        ),
                    decreases children.len() - k,
                {
                    let c: usize = children[k];
                    let usage = self.get_node(c).usage_text();
                    let next = join(prefix, &to_chars(usage.as_str()));
                    let ghost before = lines_of(result@);
                    let ghost rest = usage_of_children(
                        nodes,
                        granted@,
                        restricted,
                        node,
                        prefix@,
                        k + 1,
                    );
                    self.usage_into(granted, restricted, c, &next, result);
                    assert(lines_of(result@) + rest =~= before + (all_usage(
                        nodes,
                        granted@,
                        restricted,
                        c,
                        next@,
                    ) + rest));
                    k = k + 1;
                }
                assert(usage_of_children(nodes, granted@, restricted, node, prefix@, k as int)
                    =~= Seq::<Seq<char>>::empty());
                assert(lines_of(result@) =~= start + (own + usage_of_children(
                    nodes,
                    granted@,
                    restricted,
                    node,
                    prefix@,
                    0,
                )));
            },
        }
    }

    /// One line for each way to write a command in the subtree of `node`:
    /// see `all_usage`. With `restricted`, only what a source that meets
    /// the requirements in `granted` can use.
    pub fn get_all_usage(&self, node: usize, granted: &Vec<u32>, restricted: bool) -> (out: Vec<String>)
        ensures
            out@.len() == all_usage(self.tree(), granted@, restricted, node, Seq::empty()).len(),
            forall|i: int|
                0 <= i < out@.len() ==> (#[trigger] out@[i])@ == all_usage(
                    self.tree(),
                    granted@,
                    restricted,
                    node,
                    Seq::empty(),
                )[i],
    {
        let count: usize = self.node_count();
        let mut out: Vec<String> = Vec::new();
        if node >= self.node_count() {
            return out;
        }
        let mut lines: Vec<Vec<char>> = Vec::new();
        let prefix: Vec<char> = Vec::new();
        assert(lines_of(lines@) =~= Seq::<Seq<char>>::empty());
        self.usage_into(granted, restricted, node, &prefix, &mut lines);
        let ghost all = all_usage(self.tree(), granted@, restricted, node, Seq::empty());
        assert(lines_of(lines@) =~= all);
        let mut i: usize = 0;
        while i < lines.len()
            invariant
                i <= lines.len(),
                out@.len() == i,
                lines_of(lines@) == all,
                forall|k: int| 0 <= k < i ==> (#[trigger] out@[k])@ == all[k],
            decreases lines.len() - i,
        {
            assert(lines_of(lines@)[i as int] == lines@[i as int]@);
            out.push(to_text(&lines[i]));
            i = i + 1;
        }
        out
    }
}

pub const USAGE_OPTIONAL_OPEN: char = '[';

pub const USAGE_OPTIONAL_CLOSE: char = ']';

pub const USAGE_REQUIRED_OPEN: char = '(';

pub const USAGE_REQUIRED_CLOSE: char = ')';

pub const USAGE_OR: char = '|';

/// `text` between square brackets where it is `optional`, else as it is.
pub open spec fn wrapped(text: Seq<char>, optional: bool) -> Seq<char> {
    if optional {
        seq![USAGE_OPTIONAL_OPEN] + text + seq![USAGE_OPTIONAL_CLOSE]
    } else {
        text
    }
}

/// Those of `children` from the `k`-th on that the source can use.
pub open spec fn usable_children<T: ArgumentType>(
    nodes: Seq<CommandNode<T>>,
    granted: Seq<u32>,
    children: Seq<usize>,
    k: int,
) -> Seq<usize>
    decreases children.len() - k,
{
    if k < 0 || k >= children.len() {
        Seq::empty()
    } else if nodes[children[k] as int].spec_base().usable(granted) {
        seq![children[k]] + usable_children(nodes, granted, children, k + 1)
    } else {
        usable_children(nodes, granted, children, k + 1)
    }
}

/// Whether the nodes at `list` all have one usage text.
pub open spec fn one_usage<T: ArgumentType>(nodes: Seq<CommandNode<T>>, list: Seq<usize>) -> bool {
    forall|i: int|
        0 <= i < list.len() ==> nodes[#[trigger] list[i] as int].spec_usage()
            == nodes[list[0] as int].spec_usage()
}

/// The usage texts of the nodes at `list` from the `k`-th on, with a bar
/// between each two.
pub open spec fn alternatives<T: ArgumentType>(
    nodes: Seq<CommandNode<T>>,
    list: Seq<usize>,
    k: int,
) -> Seq<char>
    decreases list.len() - k,
{
    if k < 0 || k >= list.len() {
        Seq::empty()
    } else if k + 1 == list.len() {
        nodes[list[k] as int].spec_usage()
    } else {
        nodes[list[k] as int].spec_usage() + seq![USAGE_OR] + alternatives(nodes, list, k + 1)
    }
}

/// The short usage of `node`: its own usage text, between square brackets
/// where it is `optional`, followed by what comes after it.
///
/// `None` for a node that the source cannot use. Where `deep`, nothing
/// follows. Else a redirect is followed by its text; one usable child by
/// its own short usage; several usable children by their one usage text,
/// where they share it, or by their usage texts as alternatives, between
/// square brackets where this node has an executor and round ones where it
/// has none.
pub open spec fn smart_usage<T: ArgumentType>(
    nodes: Seq<CommandNode<T>>,
    granted: Seq<u32>,
    node: usize,
    optional: bool,
    deep: bool,
) -> Option<Seq<char>>
    decreases nodes.len() - node,
{
    let base = nodes[node as int].spec_base();
    if node >= nodes.len() || !base.usable(granted) {
        None
    } else {
        let own = wrapped(nodes[node as int].spec_usage(), optional);
        let child_optional = base.command is Some;
        if deep {
            Some(own)
        } else {
            match base.redirect {
                Some(target) => Some(own + seq![ARGUMENT_SEPARATOR] + redirect_text(nodes, target)),
                None => {
                    let usable = usable_children(nodes, granted, base.children@, 0);
                    if usable.len() == 0 {
                        Some(own)
                    } else if usable.len() == 1 {
                        if node < usable[0] < nodes.len() {
                            match smart_usage(
                                nodes,
                                granted,
                                usable[0],
                                child_optional,
                                child_optional,
                            ) {
                                Some(next) => Some(own + seq![ARGUMENT_SEPARATOR] + next),
                                None => Some(own),
                            }
                        } else {
                            Some(own)
                        }
                    } else if one_usage(nodes, usable) {
                        Some(
                            own + seq![ARGUMENT_SEPARATOR] + wrapped(
                                wrapped(nodes[usable[0] as int].spec_usage(), child_optional),
                                child_optional,
                            ),
                        )
                    } else {
                        Some(
                            own + seq![ARGUMENT_SEPARATOR] + seq![
                                if child_optional {
                                    USAGE_OPTIONAL_OPEN
                                } else {
                                    USAGE_REQUIRED_OPEN
                                },
                            ] + alternatives(nodes, usable, 0) + seq![
                                if child_optional {
                                    USAGE_OPTIONAL_CLOSE
                                } else {
                                    USAGE_REQUIRED_CLOSE
                                },
                            ],
                        )
                    }
                },
            }
        }
    }
}

/// The short usages of the children of `node` from the `k`-th on, each
/// with the offset of its child: one for each child that the source can
/// use, optional where `node` has an executor.
pub open spec fn smart_usages<T: ArgumentType>(
    nodes: Seq<CommandNode<T>>,
    granted: Seq<u32>,
    node: usize,
    k: int,
) -> Seq<(usize, Seq<char>)>
    decreases nodes[node as int].spec_base().children@.len() - k,
{
    let base = nodes[node as int].spec_base();
    if k < 0 || k >= base.children@.len() {
        Seq::empty()
    } else {
        let c = base.children@[k];
        (match smart_usage(nodes, granted, c, base.command is Some, false) {
            Some(usage) => seq![(c, usage)],
            None => Seq::empty(),
        }) + smart_usages(nodes, granted, node, k + 1)
    }
}

fn wrap(text: &Vec<char>, optional: bool) -> (out: Vec<char>)
    ensures
        out@ == wrapped(text@, optional),
{
    if !optional {
        return copy_text(text);
    }
    let mut out: Vec<char> = Vec::new();
    out.push(USAGE_OPTIONAL_OPEN);
    append(&mut out, text);
    out.push(USAGE_OPTIONAL_CLOSE);
    out
}

fn append(out: &mut Vec<char>, text: &Vec<char>)
    ensures
        final(out)@ == old(out)@ + text@,
{
    let ghost head = out@;
    let mut i: usize = 0;
    while i < text.len()
        invariant
            i <= text.len(),
            out@ == head + text@.subrange(0, i as int),
        decreases text.len() - i,
    {
        out.push(text[i]);
        i = i + 1;
    }
    assert(text@.subrange(0, i as int) =~= text@);
}

impl<T: ArgumentType> CommandDispatcher<T> {
    fn usage_chars(&self, node: usize) -> (out: Vec<char>)
        requires
            node < self.tree().len(),
        ensures
            out@ == self.tree()[node as int].spec_usage(),
    {
        let usage = self.get_node(node).usage_text();
        to_chars(usage.as_str())
    }

    fn usable_of(&self, node: usize, granted: &Vec<u32>) -> (out: Vec<usize>)
        requires
            self.wf(),
            node < self.tree().len(),
        ensures
            out@ == usable_children(
                self.tree(),
                granted@,
                self.tree()[node as int].spec_base().children@,
                0,
            ),
            forall|i: int| 0 <= i < out@.len() ==> node < #[trigger] out@[i] < self.tree().len(),
    {
        let ghost nodes = self.tree();
        assert(node_wf(nodes, node as int));
        let children = &self.get_node(node).base().children;
        let mut out: Vec<usize> = Vec::new();
        let mut k: usize = 0;
        while k < children.len()
            invariant
                self.wf(),
                nodes == self.tree(),
                node < nodes.len(),
                node_wf(nodes, node as int),
                children@ == nodes[node as int].spec_base().children@,
                k <= children.len(),
                forall|i: int| 0 <= i < out@.len() ==> node < #[trigger] out@[i] < nodes.len(),
                out@ + usable_children(nodes, granted@, children@, k as int) == usable_children(
                    nodes,
                    granted@,
                    children@,
                    0,
                ),
            decreases children.len() - k,
        {
            let c: usize = children[k];
            let ghost before = out@;
            let ghost rest = usable_children(nodes, granted@, children@, k + 1);
            if self.get_node(c).base().can_use(granted) {
                out.push(c);
                assert(out@ + rest =~= before + (seq![c] + rest));
            }
            k = k + 1;
        }
        assert(usable_children(nodes, granted@, children@, k as int) =~= Seq::<usize>::empty());
        assert(out@ + Seq::<usize>::empty() =~= out@);
        out
    }

    fn share_usage(&self, list: &Vec<usize>) -> (r: bool)
        requires
            list@.len() > 0,
            forall|i: int| 0 <= i < list@.len() ==> (#[trigger] list@[i]) < self.tree().len(),
        ensures
            r == one_usage(self.tree(), list@),
    {
        let first = self.usage_chars(list[0]);
        let mut i: usize = 1;
        while i < list.len()
            invariant
                1 <= i <= list.len(),
                first@ == self.tree()[list@[0] as int].spec_usage(),
                forall|k: int| 0 <= k < list@.len() ==> (#[trigger] list@[k]) < self.tree().len(),
                forall|k: int|
                    0 <= k < i ==> self.tree()[#[trigger] list@[k] as int].spec_usage() == first@,
            decreases list.len() - i,
        {
            if !crate::text::same_text(&self.usage_chars(list[i]), &first) {
                assert(self.tree()[list@[i as int] as int].spec_usage() != first@);
                return false;
            }
            i = i + 1;
        }
        true
    }

    fn alternatives_of(&self, list: &Vec<usize>) -> (out: Vec<char>)
        requires
            forall|i: int| 0 <= i < list@.len() ==> (#[trigger] list@[i]) < self.tree().len(),
        ensures
            out@ == alternatives(self.tree(), list@, 0),
    {
        let mut out: Vec<char> = Vec::new();
        let mut k: usize = 0;
        while k < list.len()
            invariant
                k <= list.len(),
                forall|i: int| 0 <= i < list@.len() ==> (#[trigger] list@[i]) < self.tree().len(),
                out@ + alternatives(self.tree(), list@, k as int) == alternatives(
                    self.tree(),
                    list@,
                    0,
                ),
            decreases list.len() - k,
        {
            let ghost before = out@;
            let ghost rest = alternatives(self.tree(), list@, k + 1);
            let usage = self.usage_chars(list[k]);
            append(&mut out, &usage);
            if k + 1 < list.len() {
                out.push(USAGE_OR);
                assert(out@ + rest =~= before + (usage@ + seq![USAGE_OR] + rest));
            } else {
                assert(rest =~= Seq::<char>::empty());
                assert(out@ + rest =~= before + usage@);
            }
            k = k + 1;
        }
        assert(alternatives(self.tree(), list@, k as int) =~= Seq::<char>::empty());
        assert(out@ + Seq::<char>::empty() =~= out@);
        out
    }

    fn smart_usage_of(
        &self,
        granted: &Vec<u32>,
        node: usize,
        optional: bool,
        deep: bool,
    ) -> (r: Option<Vec<char>>)
        requires
            self.wf(),
            node < self.tree().len(),
        ensures
            match r {
                Some(out) => smart_usage(self.tree(), granted@, node, optional, deep) == Some(out@),
                None => smart_usage(self.tree(), granted@, node, optional, deep) is None,
            },
        decreases self.tree().len() - node,
    {
        let ghost nodes = self.tree();
        let this = self.get_node(node);
        let base = this.base();
        assert(node_wf(nodes, node as int));
        if !base.can_use(granted) {
            return None;
        }
        let mut out = wrap(&self.usage_chars(node), optional);
        let child_optional: bool = base.command.is_some();
        if deep {
            return Some(out);
        }
        match base.redirect {
            Some(target) => {
                out.push(ARGUMENT_SEPARATOR);
                let redirect = self.redirect_line(target);
                append(&mut out, &redirect);
                Some(out)
            },
            None => {
                let usable = self.usable_of(node, granted);
                if usable.len() == 0 {
                    Some(out)
                } else if usable.len() == 1 {
                    match self.smart_usage_of(granted, usable[0], child_optional, child_optional) {
                        Some(next) => {
                            out.push(ARGUMENT_SEPARATOR);
                            append(&mut out, &next);
                            Some(out)
                        },
                        None => Some(out),
                    }
                } else if self.share_usage(&usable) {
                    out.push(ARGUMENT_SEPARATOR);
                    let inner = wrap(&self.usage_chars(usable[0]), child_optional);
                    append(&mut out, &wrap(&inner, child_optional));
                    Some(out)
                } else {
                    out.push(ARGUMENT_SEPARATOR);
                    out.push(if child_optional { USAGE_OPTIONAL_OPEN } else { USAGE_REQUIRED_OPEN });
                    let choices = self.alternatives_of(&usable);
                    append(&mut out, &choices);
                    out.push(
                        if child_optional {
                            USAGE_OPTIONAL_CLOSE
                        } else {
                            USAGE_REQUIRED_CLOSE
                        },
                    );
                    Some(out)
                }
            },
        }
    }

    /// The short usage of each child of `node` that a source can use which
    /// meets the requirements in `granted`, with the offset of the child:
    /// see `smart_usage`.
    pub fn get_smart_usage(&self, node: usize, granted: &Vec<u32>) -> (out: Vec<(usize, String)>)
        ensures
            node < self.tree().len() ==> out@.len() == smart_usages(
                self.tree(),
                granted@,
                node,
                0,
            ).len(),
            node < self.tree().len() ==> forall|i: int|
                0 <= i < out@.len() ==> (#[trigger] out@[i]).0 == smart_usages(
                    self.tree(),
                    granted@,
                    node,
                    0,
                )[i].0 && out@[i].1@ == smart_usages(self.tree(), granted@, node, 0)[i].1,
            node >= self.tree().len() ==> out@.len() == 0,
    {
        let count: usize = self.node_count();
        let mut out: Vec<(usize, String)> = Vec::new();
        if node >= self.node_count() {
            return out;
        }
        let ghost nodes = self.tree();
        let ghost all = smart_usages(nodes, granted@, node, 0);
        assert(node_wf(nodes, node as int));
        let base = self.get_node(node).base();
        let optional: bool = base.command.is_some();
        let children = &base.children;
        let ghost mut done: Seq<(usize, Seq<char>)> = Seq::empty();
        let mut k: usize = 0;
        while k < children.len()
            invariant
                self.wf(),
                nodes == self.tree(),
                node < nodes.len(),
                node_wf(nodes, node as int),
                children@ == nodes[node as int].spec_base().children@,
                optional == (nodes[node as int].spec_base().command is Some),
                k <= children.len(),
                all == smart_usages(nodes, granted@, node, 0),
                done + smart_usages(nodes, granted@, node, k as int) == all,
                out@.len() == done.len(),
                forall|i: int|
                    0 <= i < out@.len() ==> (#[trigger] out@[i]).0 == done[i].0 && out@[i].1@
                        == done[i].1,
            decreases children.len() - k,
        {
            let c: usize = children[k];
            let ghost rest = smart_usages(nodes, granted@, node, k + 1);
            match self.smart_usage_of(granted, c, optional, false) {
                Some(usage) => {
                    let ghost before = done;
                    out.push((c, to_text(&usage)));
                    proof {
                        done = before.push((c, usage@));
                        assert(done + rest =~= before + (seq![(c, usage@)] + rest));
                    }
                },
                None => {
                    assert(Seq::<(usize, Seq<char>)>::empty() + rest =~= rest);
                },
            }
            k = k + 1;
        }
        assert(smart_usages(nodes, granted@, node, k as int) =~= Seq::empty());
        assert(done + Seq::<(usize, Seq<char>)>::empty() =~= done);
        out
    }
}

} // verus!
