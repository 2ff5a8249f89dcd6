//! From the outcome of a parse to what is run, and from what the runs
//! returned to the result of the command.
//!
//! The executors and modifiers are the embedder's. The library says which
//! of them are to be called and in what order ([`plan`]), and what their
//! results amount to ([`conclude`]).
use vstd::prelude::*;
use crate::context::{CommandContext, CommandContextBuilder, CommandContextView, ContextView};
use crate::arguments::ArgumentType;
use crate::dispatcher::{
    branches_of,
    granted_by,
    parse_nodes,
    CommandDispatcher,
    FailedBranch,
    ParseResults,
    ResultsView,
};
use crate::exceptions::{BuiltInExceptions, CommandSyntaxException, ExceptionView};

verus! {

/// One redirect on the way to the command: the modifier that derives the
/// sources to go on with (`None`: the source as it is), and whether the
/// redirect is a fork.
#[derive(Clone, Copy, Debug)]
pub struct Hop {
    pub modifier: Option<u32>,
    pub forks: bool,
}

/// What is to be run: the redirects to follow, in order, and then the
/// executor.
#[derive(Debug)]
pub struct ExecutionPlan {
    pub hops: Vec<Hop>,
    pub command: u32,
}

/// A plan, as plain values.
pub struct PlanView {
    pub hops: Seq<Hop>,
    pub command: u32,
}

impl View for ExecutionPlan {
    type V = PlanView;

    open spec fn view(&self) -> PlanView {
        PlanView { hops: self.hops@, command: self.command }
    }
}

/// Whether one of the hops is a fork.
pub open spec fn any_fork(hops: Seq<Hop>) -> bool {
    exists|i: int| 0 <= i < hops.len() && (#[trigger] hops[i]).forks
}

impl ExecutionPlan {
    /// Whether the command runs once for each of several sources.
    pub fn is_forked(&self) -> (r: bool)
        ensures
            r == any_fork(self@.hops),
    {
        let mut i: usize = 0;
        while i < self.hops.len()
            invariant
                i <= self.hops.len(),
                forall|k: int| 0 <= k < i ==> !(#[trigger] self.hops@[k]).forks,
            decreases self.hops.len() - i,
        {
            if self.hops[i].forks {
                return true;
            }
            i = i + 1;
        }
        false
    }
}

/// The failed branch at `i` got further than every other.
pub open spec fn is_furthest(exceptions: Seq<(usize, ExceptionView)>, i: int) -> bool {
    &&& 0 <= i < exceptions.len()
    &&& forall|j: int|
        0 <= j < exceptions.len() && j != i ==> (#[trigger] exceptions[j]).1.cursor
            < exceptions[i].1.cursor
}

/// What is reported where input is left over: the failure of the branch
/// that got furthest, if one got further than all others; else that the
/// command is unknown, where the path is empty, or its argument, where it
/// is not, at the cursor.
pub open spec fn failure_of(r: ResultsView) -> ExceptionView {
    if exists|i: int| is_furthest(r.exceptions, i) {
        r.exceptions[choose|i: int| is_furthest(r.exceptions, i)].1
    } else {
        ExceptionView {
            kind: if r.context.range.start == r.context.range.end {
                BuiltInExceptions::DispatcherUnknownCommand
            } else {
                BuiltInExceptions::DispatcherUnknownArgument
            },
            input: r.input,
            cursor: r.cursor,
        }
    }
}

/// The plan that a chain of contexts gives, with `hops` the redirects
/// before `context`: each context with a child is one more redirect, and
/// the last context has the executor. There is no plan where a child went
/// through no node, or where the last context has no executor.
pub open spec fn plan_of(context: ContextView, hops: Seq<Hop>) -> Option<PlanView>
    decreases context,
{
    match context.child {
        Some(child) => if child.nodes.len() > 0 {
            plan_of(*child, hops.push(Hop { modifier: context.modifier, forks: context.forks }))
        } else {
            None
        },
        None => match context.command {
            Some(command) => Some(PlanView { hops, command }),
            None => None,
        },
    }
}

/// The plan of a chain of contexts after some redirects is the plan of the
/// chain by itself, after those redirects.
pub proof fn lemma_plan_after_hops(context: ContextView, hops: Seq<Hop>)
    ensures
        plan_of(context, hops) == match plan_of(context, Seq::empty()) {
            Some(p) => Some(PlanView { hops: hops + p.hops, command: p.command }),
            None => None,
        },
    decreases context,
{
    match context.child {
        Some(child) => {
            if child.nodes.len() > 0 {
                let hop = Hop { modifier: context.modifier, forks: context.forks };
                lemma_plan_after_hops(*child, hops.push(hop));
                lemma_plan_after_hops(*child, Seq::<Hop>::empty().push(hop));
                match plan_of(*child, Seq::empty()) {
                    Some(p) => {
                        assert(hops.push(hop) + p.hops =~= hops + (Seq::<Hop>::empty().push(hop)
                            + p.hops));
                    },
                    None => {},
                }
            }
        },
        None => {
            assert(hops + Seq::<Hop>::empty() =~= hops);
        },
    }
}

/// What `plan` returns for the outcome `r` of a parse.
pub open spec fn planned(r: ResultsView) -> Result<PlanView, ExceptionView> {
    if r.cursor < r.input.len() {
        Err(failure_of(r))
    } else {
        match plan_of(r.context, Seq::empty()) {
            Some(p) => Ok(p),
            None => Err(
                ExceptionView {
                    kind: BuiltInExceptions::DispatcherUnknownCommand,
                    input: r.input,
                    cursor: r.cursor,
                },
            ),
        }
    }
}

/// The number of contexts after `context` in its chain.
pub open spec fn depth(context: ContextView) -> nat
    decreases context,
{
    match context.child {
        Some(child) => 1 + depth(*child),
        None => 0,
    }
}

fn furthest(exceptions: &Vec<FailedBranch>) -> (r: Option<usize>)
    ensures
        match r {
            Some(i) => is_furthest(branches_of(exceptions@), i as int),
            None => forall|i: int| !is_furthest(branches_of(exceptions@), i),
        },
{
    let ghost list = branches_of(exceptions@);
    if exceptions.len() == 0 {
        return None;
    }
    let mut best: usize = 0;
    let mut tied: bool = false;
    let mut i: usize = 1;
    while i < exceptions.len()
        invariant
            1 <= i <= exceptions.len(),
            best < i,
            list == branches_of(exceptions@),
            forall|j: int| 0 <= j < i ==> (#[trigger] list[j]).1.cursor <= list[best as int].1.cursor,
            tied <==> exists|j: int|
                0 <= j < i && j != best && (#[trigger] list[j]).1.cursor == list[best as int].1.cursor,
        decreases exceptions.len() - i,
    {
        let here: usize = exceptions[i].exception.cursor;
        let top: usize = exceptions[best].exception.cursor;
        assert(list[i as int].1.cursor == here);
        assert(list[best as int].1.cursor == top);
        if here > top {
            best = i;
            tied = false;
        } else if here == top {
            tied = true;
        }
        i = i + 1;
    }
    if tied {
        proof {
            let j = choose|j: int|
                0 <= j < list.len() && j != best && (#[trigger] list[j]).1.cursor
                    == list[best as int].1.cursor;
            assert forall|k: int| !is_furthest(list, k) by {
                if 0 <= k < list.len() {
                    if k == best {
                        assert(list[j].1.cursor == list[k].1.cursor);
                    } else {
                        assert(list[k].1.cursor <= list[best as int].1.cursor);
                    }
                }
            }
        }
        None
    } else {
        Some(best)
    }
}

/// Says what is to be run for the outcome of a parse: the plan, where the
/// whole input was taken and the path ends in an executor; else the
/// failure to report.
pub fn plan(parse: &ParseResults) -> (r: Result<ExecutionPlan, CommandSyntaxException>)
    ensures
        match planned(parse@) {
            Ok(p) => r matches Ok(out) && out@ == p,
            Err(e) => r matches Err(out) && out@ == e,
        },
{
    let reader = parse.get_reader();
    proof {
        use_type_invariant(reader);
    }
    if reader.can_read() {
        let exceptions = parse.get_exceptions();
        match furthest(exceptions) {
            Some(i) => {
                proof {
                    let list = branches_of(exceptions@);
                    let c = choose|k: int| is_furthest(list, k);
                    if c != i {
                        assert(list[i as int].1.cursor < list[c].1.cursor);
                        assert(list[c].1.cursor < list[i as int].1.cursor);
                    }
                }
                return Err(exceptions[i].exception.duplicate());
            },
            None => {
                let range = parse.get_context().get_range();
                let kind = if range.start == range.end {
                    BuiltInExceptions::DispatcherUnknownCommand
                } else {
                    BuiltInExceptions::DispatcherUnknownArgument
                };
                return Err(CommandSyntaxException::new(kind, reader.chars(), reader.get_cursor()));
            },
        }
    }
    let mut hops: Vec<Hop> = Vec::new();
    let mut level: &CommandContextBuilder = parse.get_context();
    loop
        invariant
            reader@.input == parse@.input,
            reader@.cursor == parse@.cursor,
            parse@.cursor >= parse@.input.len(),
            plan_of(parse@.context, Seq::empty()) == plan_of(level@, hops@),
        decreases depth(level@),
    {
        match level.get_child() {
            Some(child) => {
                if child.has_nodes() {
                    hops.push(Hop { modifier: level.get_redirect_modifier(), forks: level.is_forked() });
                    level = child;
                } else {
                    return Err(
                        CommandSyntaxException::new(
                            BuiltInExceptions::DispatcherUnknownCommand,
                            reader.chars(),
                            reader.get_cursor(),
                        ),
                    );
                }
            },
            None => {
                return match level.get_command() {
                    Some(command) => Ok(ExecutionPlan { hops, command }),
                    None => Err(
                        CommandSyntaxException::new(
                            BuiltInExceptions::DispatcherUnknownCommand,
                            reader.chars(),
                            reader.get_cursor(),
                        ),
                    ),
                };
            },
        }
    }
}

/// Why running a command gave no result.
#[derive(Debug)]
pub enum ExecuteFailure<E> {
    /// The one execution failed, with the embedder's error.
    Command(E),
    /// Every one of the forked executions failed.
    ForkFailed,
    /// Nothing was executed.
    Nothing,
}

/// The number of executions that succeeded.
pub open spec fn successes<E>(outcomes: Seq<Result<i32, E>>) -> nat
    decreases outcomes.len(),
{
    if outcomes.len() == 0 {
        0
    } else {
        successes(outcomes.drop_last()) + (if outcomes.last() is Ok { 1nat } else { 0nat })
    }
}

/// What the outcomes of the executions amount to.
///
/// Forked: the number of executions that succeeded, if any did (no more
/// than the largest `i32`); a failure if none did. Not forked: the result
/// or the failure of the one execution.
pub open spec fn concluded<E>(forked: bool, outcomes: Seq<Result<i32, E>>) -> Result<
    i32,
    ExecuteFailure<E>,
> {
    if forked {
        let m = successes(outcomes);
        if m == 0 {
            Err(ExecuteFailure::ForkFailed)
        } else if m > i32::MAX {
            Ok(i32::MAX)
        } else {
            Ok(m as i32)
        }
    } else if outcomes.len() == 0 {
        Err(ExecuteFailure::Nothing)
    } else {
        match outcomes[0] {
            Ok(v) => Ok(v),
            Err(e) => Err(ExecuteFailure::Command(e)),
        }
    }
}

/// Turns the outcomes of the executions, one for each source the command
/// ran for, into the result of the command.
pub fn conclude<E>(forked: bool, outcomes: Vec<Result<i32, E>>) -> (r: Result<
    i32,
    ExecuteFailure<E>,
>)
    ensures
        r == concluded(forked, outcomes@),
{
    let mut outcomes = outcomes;
    let ghost all = outcomes@;
    if forked {
        let mut count: i32 = 0;
        let mut i: usize = 0;
        while i < outcomes.len()
            invariant
                i <= outcomes.len(),
                outcomes@ == all,
                0 <= count,
                count == (if successes(all.subrange(0, i as int)) > i32::MAX {
                    i32::MAX as int
                } else {
                    successes(all.subrange(0, i as int)) as int
                }),
            decreases outcomes.len() - i,
        {
            proof {
                let next = all.subrange(0, i + 1);
                assert(next.drop_last() == all.subrange(0, i as int));
                assert(next.last() == all[i as int]);
            }
            if outcomes[i].is_ok() && count < i32::MAX {
                count = count + 1;
            }
            i = i + 1;
        }
        assert(all.subrange(0, i as int) == all);
        if count == 0 {
            Err(ExecuteFailure::ForkFailed)
        } else {
            Ok(count)
        }
    } else if outcomes.len() == 0 {
        Err(ExecuteFailure::Nothing)
    } else {
        match outcomes.remove(0) {
            Ok(v) => Ok(v),
            Err(e) => Err(ExecuteFailure::Command(e)),
        }
    }
}

/// Why `execute` gave no result.
#[derive(Debug)]
pub enum ExecuteError<E> {
    /// The input did not resolve to a command.
    Syntax(CommandSyntaxException),
    /// The one execution failed, with the embedder's error.
    Command(E),
    /// Every one of the forked executions failed.
    ForkFailed,
    /// Nothing was executed.
    Nothing,
}

/// The result of `conclude`, as the result of `execute`.
pub open spec fn lifted<E>(r: Result<i32, ExecuteFailure<E>>) -> Result<i32, ExecuteError<E>> {
    match r {
        Ok(v) => Ok(v),
        Err(ExecuteFailure::Command(e)) => Err(ExecuteError::Command(e)),
        Err(ExecuteFailure::ForkFailed) => Err(ExecuteError::ForkFailed),
        Err(ExecuteFailure::Nothing) => Err(ExecuteError::Nothing),
    }
}

fn lift<E>(r: Result<i32, ExecuteFailure<E>>) -> (out: Result<i32, ExecuteError<E>>)
    ensures
        out == lifted(r),
{
    match r {
        Ok(v) => Ok(v),
        Err(ExecuteFailure::Command(e)) => Err(ExecuteError::Command(e)),
        Err(ExecuteFailure::ForkFailed) => Err(ExecuteError::ForkFailed),
        Err(ExecuteFailure::Nothing) => Err(ExecuteError::Nothing),
    }
}

/// The items of `list`, last first.
fn reversed<S>(list: Vec<S>) -> (out: Vec<S>)
    ensures
        out@ == list@.reverse(),
{
    let mut list = list;
    let ghost all = list@;
    let mut out: Vec<S> = Vec::new();
    while list.len() > 0
        invariant
            list@ == all.subrange(0, list@.len() as int),
            list@.len() <= all.len(),
            out@.len() + list@.len() == all.len(),
            forall|i: int| 0 <= i < out@.len() ==> out@[i] == all[all.len() - 1 - i],
        decreases list.len(),
    {
        let ghost before = list@;
        let item = list.pop().unwrap();
        assert(item == all[before.len() - 1]);
        out.push(item);
    }
    assert(out@ =~= all.reverse());
    out
}

/// The context at the `h`-th level of a chain: the `h`-th child down from
/// `context`.
pub open spec fn level(context: ContextView, h: nat) -> ContextView
    decreases h,
{
    if h == 0 {
        context
    } else {
        match level(context, (h - 1) as nat).child {
            Some(child) => *child,
            None => level(context, (h - 1) as nat),
        }
    }
}

/// The context that the embedder's functions are given at level `h`.
pub open spec fn context_at(parse: ResultsView, h: int) -> CommandContextView {
    CommandContextView { input: parse.input, context: level(parse.context, h as nat) }
}

/// What a modifier returned, with the list of sources as a sequence.
pub open spec fn seen<S, E>(raw: Result<Vec<S>, E>) -> Result<Seq<S>, E> {
    match raw {
        Ok(list) => Ok(list@),
        Err(e) => Err(e),
    }
}

/// `step` is what `derive` gave for modifier `m`, a context with the view
/// `view`, and the source `s`.
pub open spec fn derive_gives<S, E, M>(
    derive: &M,
    m: u32,
    view: CommandContextView,
    s: S,
    step: Result<Seq<S>, E>,
) -> bool where M: Fn(u32, &CommandContext, &S) -> Result<Vec<S>, E> {
    exists|context: CommandContext, raw: Result<Vec<S>, E>|
        context@ == view && call_ensures(derive, (m, &context, &s), raw) && step == seen(raw)
}

/// `outcome` is what `run` gave for `command`, a context with the view
/// `view`, and the source `s`.
pub open spec fn run_gives<S, E, R>(
    run: &R,
    command: u32,
    view: CommandContextView,
    s: S,
    outcome: Result<i32, E>,
) -> bool where R: Fn(u32, &CommandContext, &S) -> Result<i32, E> {
    exists|context: CommandContext|
        context@ == view && call_ensures(run, (command, &context, &s), outcome)
}

/// `step` is what becomes of the source `s` at `hop`: `s` itself where the
/// hop has no modifier, else what `derive` gave for it.
pub open spec fn step_taken<S, E, M>(
    derive: &M,
    hop: Hop,
    view: CommandContextView,
    s: S,
    step: Result<Seq<S>, E>,
) -> bool where M: Fn(u32, &CommandContext, &S) -> Result<Vec<S>, E> {
    match hop.modifier {
        None => step == Ok::<Seq<S>, E>(seq![s]),
        Some(m) => derive_gives(derive, m, view, s, step),
    }
}

/// `steps` holds what becomes of each of `sources` at `hop`, in order.
pub open spec fn hop_taken<S, E, M>(
    derive: &M,
    hop: Hop,
    view: CommandContextView,
    sources: Seq<S>,
    steps: Seq<Result<Seq<S>, E>>,
) -> bool where M: Fn(u32, &CommandContext, &S) -> Result<Vec<S>, E> {
    &&& steps.len() == sources.len()
    &&& forall|i: int|
        0 <= i < steps.len() ==> step_taken(derive, hop, view, sources[i], #[trigger] steps[i])
}

/// The sources that a hop hands on: those of each step that succeeded, in
/// order.
pub open spec fn gathered<S, E>(steps: Seq<Result<Seq<S>, E>>) -> Seq<S>
    decreases steps.len(),
{
    if steps.len() == 0 {
        Seq::empty()
    } else {
        gathered(steps.drop_last()) + (match steps.last() {
            Ok(list) => list,
            Err(_) => Seq::empty(),
        })
    }
}

/// The failed executions of a hop: one for each step that failed, in
/// order.
pub open spec fn failed<S, E>(steps: Seq<Result<Seq<S>, E>>) -> Seq<Result<i32, E>>
    decreases steps.len(),
{
    if steps.len() == 0 {
        Seq::empty()
    } else {
        failed(steps.drop_last()) + (match steps.last() {
            Ok(_) => Seq::empty(),
            Err(e) => seq![Err::<i32, E>(e)],
        })
    }
}

/// The sources at level `h`: `source` alone at the first, then what the
/// hop before handed on.
pub open spec fn sources_at<S, E>(source: S, trace: Seq<Seq<Result<Seq<S>, E>>>, h: int) -> Seq<S> {
    if h <= 0 {
        seq![source]
    } else {
        gathered(trace[h - 1])
    }
}

/// The failed executions of the first `h` hops, in order.
pub open spec fn failures_upto<S, E>(trace: Seq<Seq<Result<Seq<S>, E>>>, h: int) -> Seq<
    Result<i32, E>,
>
    decreases h,
{
    if h <= 0 {
        Seq::empty()
    } else {
        failures_upto(trace, h - 1) + failed(trace[h - 1])
    }
}

/// `trace` and `outcomes` are what running the plan `p` for `source` went
/// through: `trace` holds, for each hop, what became of each source at its
/// level; `outcomes` holds what `run` gave for each source at the last
/// level, in order.
pub open spec fn ran<S, E, R, M>(
    parse: ResultsView,
    source: S,
    run: &R,
    derive: &M,
    p: PlanView,
    trace: Seq<Seq<Result<Seq<S>, E>>>,
    outcomes: Seq<Result<i32, E>>,
) -> bool where
    R: Fn(u32, &CommandContext, &S) -> Result<i32, E>,
    M: Fn(u32, &CommandContext, &S) -> Result<Vec<S>, E>,
 {
    let n = p.hops.len() as int;
    &&& trace.len() == n
    &&& forall|h: int|
        0 <= h < n ==> hop_taken(
            derive,
            p.hops[h],
            context_at(parse, h),
            sources_at(source, trace, h),
            #[trigger] trace[h],
        )
    &&& outcomes.len() == sources_at(source, trace, n).len()
    &&& forall|i: int|
        0 <= i < outcomes.len() ==> run_gives(
            run,
            p.command,
            context_at(parse, n),
            sources_at(source, trace, n)[i],
            #[trigger] outcomes[i],
        )
}

/// What `execute` returns for the outcome `parse` of a parse: the failure
/// to report, where the parse gives no plan. Else the sources go through
/// the hops of the plan in order, from `source` alone: at a hop without
/// modifier each source goes on as it is; at a hop with one, `derive`
/// replaces each source by those it gives, or fails for it. `run` then
/// gives one outcome for each source that is left. The result is what the
/// failures of `derive`, in order, and then the outcomes of `run` amount
/// to.
pub open spec fn executes<S, E, R, M>(
    parse: ResultsView,
    source: S,
    run: &R,
    derive: &M,
    r: Result<i32, ExecuteError<E>>,
) -> bool where
    R: Fn(u32, &CommandContext, &S) -> Result<i32, E>,
    M: Fn(u32, &CommandContext, &S) -> Result<Vec<S>, E>,
 {
    match planned(parse) {
        Err(e) => r matches Err(ExecuteError::Syntax(x)) && x@ == e,
        Ok(p) => exists|trace: Seq<Seq<Result<Seq<S>, E>>>, outcomes: Seq<Result<i32, E>>|
            ran(parse, source, run, derive, p, trace, outcomes) && r == lifted(
                concluded(
                    any_fork(p.hops),
                    failures_upto(trace, p.hops.len() as int) + outcomes,
                ),
            ),
    }
}

/// The failed executions of the first `h` hops do not depend on later
/// hops.
proof fn lemma_failures_upto_prefix<S, E>(
    trace: Seq<Seq<Result<Seq<S>, E>>>,
    more: Seq<Result<Seq<S>, E>>,
    h: int,
)
    requires
        h <= trace.len(),
    ensures
        failures_upto(trace.push(more), h) == failures_upto(trace, h),
    decreases h,
{
    if h > 0 {
        lemma_failures_upto_prefix(trace, more, h - 1);
        assert(trace.push(more)[h - 1] == trace[h - 1]);
    }
}

/// Runs the command that `parse` resolved to, for `source`.
///
/// `derive` is the embedder's way to apply the modifier behind a handle,
/// `run` its way to call the executor behind one; each is given the context
/// of its level. The redirects are followed in order: a modifier replaces
/// each source by those it derives, and a modifier that fails counts as one
/// failed execution. The executor then runs once for each source that is
/// left, and `conclude` says what the outcomes amount to.
pub fn execute<S, E, R, M>(parse: &ParseResults, source: S, run: &R, derive: &M) -> (r: Result<
    i32,
    ExecuteError<E>,
>) where
    R: Fn(u32, &CommandContext, &S) -> Result<i32, E>,
    M: Fn(u32, &CommandContext, &S) -> Result<Vec<S>, E>,

    requires
        forall|c: u32, context: &CommandContext, s: &S| call_requires(run, (c, context, s)),
        forall|m: u32, context: &CommandContext, s: &S| call_requires(derive, (m, context, s)),
    ensures
        executes(parse@, source, run, derive, r),
{
    let steps = match plan(parse) {
        Ok(p) => p,
        Err(e) => {
            return Err(ExecuteError::Syntax(e));
        },
    };
    let input = parse.get_reader().get_string();
    let forked = steps.is_forked();
    let mut outcomes: Vec<Result<i32, E>> = Vec::new();
    let mut at: &CommandContextBuilder = parse.get_context();
    let mut sources: Vec<S> = Vec::new();
    sources.push(source);
    let ghost mut trace: Seq<Seq<Result<Seq<S>, E>>> = Seq::empty();
    assert(steps@.hops.subrange(0, 0) =~= Seq::<Hop>::empty());
    let mut h: usize = 0;
    while h < steps.hops.len()
        invariant
            h <= steps.hops.len(),
            trace.len() == h,
            input@ == parse@.input,
            planned(parse@) == Ok::<PlanView, ExceptionView>(steps@),
            plan_of(at@, steps@.hops.subrange(0, h as int)) == Some(steps@),
            at@ == level(parse@.context, h as nat),
            sources@ == sources_at(source, trace, h as int),
            outcomes@ == failures_upto(trace, h as int),
            forall|j: int|
                0 <= j < h ==> hop_taken(
                    derive,
                    steps@.hops[j],
                    context_at(parse@, j),
                    sources_at(source, trace, j),
                    #[trigger] trace[j],
                ),
            forall|c: u32, context: &CommandContext, s: &S| call_requires(run, (c, context, s)),
            forall|m: u32, context: &CommandContext, s: &S| call_requires(derive, (m, context, s)),
        decreases steps.hops.len() - h,
    {
        let hop = steps.hops[h];
        let context = at.build(input.as_str());
        let ghost view = context@;
        let ghost here = sources@;
        let ghost earlier = outcomes@;
        let mut next: Vec<S> = Vec::new();
        let mut waiting = reversed(sources);
        let ghost mut done: Seq<Result<Seq<S>, E>> = Seq::empty();
        assert(earlier + failed(done) =~= earlier);
        while waiting.len() > 0
            invariant
                context@ == view,
                done.len() + waiting@.len() == here.len(),
                forall|j: int| 0 <= j < waiting@.len() ==> waiting@[j] == here[here.len() - 1 - j],
                next@ == gathered(done),
                outcomes@ == earlier + failed(done),
                forall|i: int|
                    0 <= i < done.len() ==> step_taken(derive, hop, view, here[i], #[trigger] done[i]),
                forall|m: u32, context: &CommandContext, s: &S| call_requires(derive, (m, context, s)),
            decreases waiting.len(),
        {
            let ghost before = done;
            let s = waiting.pop().unwrap();
            let ghost this = s;
            assert(this == here[before.len() as int]);
            let ghost step: Result<Seq<S>, E>;
            match hop.modifier {
                None => {
                    proof {
                        step = Ok(seq![this]);
                    }
                    next.push(s);
                },
                Some(m) => {
                    let raw = derive(m, &context, &s);
                    proof {
                        step = seen(raw);
                        assert(context@ == view && call_ensures(derive, (m, &context, &s), raw)
                            && step == seen(raw));
                        assert(derive_gives(derive, m, view, this, step));
                    }
                    match raw {
                        Ok(derived) => {
                            let mut derived = derived;
                            next.append(&mut derived);
                        },
                        Err(e) => {
                            outcomes.push(Err(e));
                        },
                    }
                },
            }
            proof {
                done = before.push(step);
                assert(done.drop_last() =~= before);
                assert(done.last() == step);
                assert(next@ =~= gathered(done));
                assert(outcomes@ =~= earlier + failed(done));
            }
        }
        sources = next;
        proof {
            let sofar = steps@.hops.subrange(0, h as int);
            let grown = trace.push(done);
            lemma_failures_upto_prefix(trace, done, h as int);
            assert(grown[h as int] == done);
            assert forall|j: int| 0 <= j < h + 1 implies hop_taken(
                derive,
                steps@.hops[j],
                context_at(parse@, j),
                sources_at(source, grown, j),
                #[trigger] grown[j],
            ) by {
                if j < h {
                    assert(grown[j] == trace[j]);
                    if j > 0 {
                        assert(grown[j - 1] == trace[j - 1]);
                    }
                    assert(sources_at(source, grown, j) == sources_at(source, trace, j));
                } else {
                    if j > 0 {
                        assert(grown[j - 1] == trace[j - 1]);
                    }
                    assert(sources_at(source, grown, j) == here);
                }
            }
            match at@.child {
                None => {
                    assert(sofar.len() == steps@.hops.len());
                },
                Some(child) => {
                    let taken = Hop { modifier: at@.modifier, forks: at@.forks };
                    lemma_plan_after_hops(*child, sofar.push(taken));
                    let rest = plan_of(*child, Seq::empty())->0;
                    assert(steps@.hops == sofar.push(taken) + rest.hops);
                    assert(steps@.hops[h as int] == (sofar.push(taken) + rest.hops)[h as int]);
                    assert(sofar.push(taken) =~= steps@.hops.subrange(0, h + 1));
                },
            }
            trace = grown;
        }
        match at.get_child() {
            Some(child) => {
                at = child;
            },
            None => {
                return Err(ExecuteError::Nothing);
            },
        }
        h = h + 1;
    }
    let context = at.build(input.as_str());
    let ghost view = context@;
    let ghost finals = sources@;
    let ghost earlier = outcomes@;
    let mut waiting = reversed(sources);
    let ghost mut given: Seq<Result<i32, E>> = Seq::empty();
    assert(earlier + given =~= earlier);
    while waiting.len() > 0
        invariant
            context@ == view,
            given.len() + waiting@.len() == finals.len(),
            forall|j: int| 0 <= j < waiting@.len() ==> waiting@[j] == finals[finals.len() - 1 - j],
            outcomes@ == earlier + given,
            forall|i: int|
                0 <= i < given.len() ==> run_gives(
                    run,
                    steps@.command,
                    view,
                    finals[i],
                    #[trigger] given[i],
                ),
            forall|c: u32, context: &CommandContext, s: &S| call_requires(run, (c, context, s)),
        decreases waiting.len(),
    {
        let ghost before = given;
        let s = waiting.pop().unwrap();
        assert(s == finals[before.len() as int]);
        let outcome = run(steps.command, &context, &s);
        proof {
            assert(context@ == view && call_ensures(run, (steps@.command, &context, &s), outcome));
            assert(run_gives(run, steps@.command, view, s, outcome));
            given = before.push(outcome);
        }
        outcomes.push(outcome);
        assert(outcomes@ =~= earlier + given);
    }
    let ghost all = outcomes@;
    let r = lift(conclude(forked, outcomes));
    proof {
        assert(view == context_at(parse@, steps@.hops.len() as int));
        assert(ran(parse@, source, run, derive, steps@, trace, given));
        assert(r == lifted(
            concluded(
                any_fork(steps@.hops),
                failures_upto(trace, steps@.hops.len() as int) + given,
            ),
        ));
    }
    r
}

impl<T: ArgumentType> CommandDispatcher<T> {
    /// Resolves `input` against the tree for `source` and runs the command
    /// it resolves to: `parse_for`, then `execute`.
    pub fn execute_str<S, E, F, R, M>(
        &self,
        input: &str,
        source: S,
        holds: &F,
        run: &R,
        derive: &M,
    ) -> (r: Result<i32, ExecuteError<E>>) where
        F: Fn(u32, &S) -> bool,
        R: Fn(u32, &CommandContext, &S) -> Result<i32, E>,
        M: Fn(u32, &CommandContext, &S) -> Result<Vec<S>, E>,

        requires
            forall|q: u32, s: &S| call_requires(holds, (q, s)),
            forall|c: u32, context: &CommandContext, s: &S| call_requires(run, (c, context, s)),
            forall|m: u32, context: &CommandContext, s: &S| call_requires(derive, (m, context, s)),
        ensures
            exists|granted: Seq<u32>|
                granted_by(self.tree(), &source, holds, granted) && executes(
                    parse_nodes(self.tree(), granted, input@, 0, 0, ContextView::fresh(0, 0)),
                    source,
                    run,
                    derive,
                    r,
                ),
    {
        let parse = self.parse_for(input, &source, holds);
        execute(&parse, source, run, derive)
    }
}

} // verus!
