use azalea_brigadier::arguments::{ArgumentValue, BuiltInArgument, WordArgument};
use azalea_brigadier::context::{CommandContext, CommandContextBuilder};
use azalea_brigadier::dispatcher::{CommandDispatcher, ParseResults};
use azalea_brigadier::exceptions::{BuiltInExceptions, CommandSyntaxException};
use azalea_brigadier::execution::{conclude, plan, ExecuteFailure, ExecutionPlan};
use azalea_brigadier::string_reader::StringReader;
use azalea_brigadier::suggestion::{StringRange, Suggestions, SuggestionsBuilder};
use azalea_brigadier::tree::{
    ArgumentBuilder, CommandNode, LiteralArgumentBuilder, RequiredArgumentBuilder,
};

type Dispatcher = CommandDispatcher<BuiltInArgument>;

fn literal(name: &str) -> LiteralArgumentBuilder {
    LiteralArgumentBuilder::literal(name)
}

fn argument(name: &str, kind: BuiltInArgument) -> RequiredArgumentBuilder<BuiltInArgument> {
    RequiredArgumentBuilder::argument(name, kind)
}

fn lit(b: LiteralArgumentBuilder) -> ArgumentBuilder<BuiltInArgument> {
    ArgumentBuilder::Literal(b)
}

fn arg(b: RequiredArgumentBuilder<BuiltInArgument>) -> ArgumentBuilder<BuiltInArgument> {
    ArgumentBuilder::Argument(b)
}

fn text(s: &str) -> Vec<char> {
    s.chars().collect()
}

fn path(parse: &ParseResults) -> Vec<usize> {
    parse.get_context().get_nodes().iter().map(|n| n.node).collect()
}

fn run(parse: &ParseResults) -> Result<ExecutionPlan, CommandSyntaxException> {
    plan(parse)
}

#[test]
fn tp_steve_end_to_end() {
    let players = ["Steve"];
    let player_name = WordArgument::new("player", &players);
    let mut d: CommandDispatcher<WordArgument> = CommandDispatcher::new();
    let tp = d.register(ArgumentBuilder::Literal(literal("tp"))).unwrap();
    let target = d
        .add_child(
            tp,
            ArgumentBuilder::Argument(
                RequiredArgumentBuilder::argument("target", player_name).executes(1),
            ),
        )
        .unwrap();
    assert_eq!(d.get_node(target).get_examples(), vec!["Steve".to_string()]);
    assert_eq!(d.get_node(target).describe(), "<argument target: player>");

    let parse = d.parse("tp Steve", &vec![]);
    let p = plan(&parse).unwrap();
    assert_eq!(p.command, 1);
    assert!(p.hops.is_empty());
    assert!(!p.is_forked());
    // the executor registered under handle 1 returns 1
    let outcome: Result<i32, ExecuteFailure<String>> = conclude(p.is_forked(), vec![Ok(1)]);
    assert_eq!(outcome.unwrap(), 1);
    let context = parse.get_context().build("tp Steve");
    match context.get_argument("target").unwrap().get_result() {
        ArgumentValue::Text(t) => assert_eq!(*t, text("Steve")),
        other => panic!("unexpected value {:?}", other),
    }
    assert_eq!(context.get_argument("target").unwrap().get_range(), StringRange::new(3, 8));
    assert_eq!(context.get_input(), "tp Steve");

    let parse = d.parse("tp", &vec![]);
    let e = plan(&parse).unwrap_err();
    assert_eq!(e.kind(), BuiltInExceptions::DispatcherUnknownCommand);
    assert_eq!(e.cursor(), 2);
    assert_eq!(e.input(), "tp");
}

#[test]
fn teleport_parses_the_target() {
    let mut d = Dispatcher::new();
    let tp = d.register(lit(literal("tp"))).unwrap();
    let target = d.add_child(tp, arg(argument("target", BuiltInArgument::Word).executes(7))).unwrap();
    let parse = d.parse("tp Steve", &vec![]);
    assert_eq!(parse.get_reader().get_cursor(), 8);
    let context = parse.get_context();
    assert_eq!(context.get_command(), Some(7));
    assert_eq!(path(&parse), vec![tp, target]);
    assert_eq!(context.get_nodes()[0].range, StringRange::new(0, 2));
    assert_eq!(context.get_nodes()[1].range, StringRange::new(3, 8));
    assert_eq!(context.get_range(), StringRange::new(0, 8));
    assert_eq!(context.get_argument_names(), vec!["target".to_string()]);
    assert!(context.get_argument("other").is_none());
    assert!(parse.get_exceptions().is_empty());
}

#[test]
fn exact_literal_resolves_to_its_node() {
    let mut d = Dispatcher::new();
    let foo = d.register(lit(literal("foo").executes(1))).unwrap();
    let bar = d.register(lit(literal("bar").executes(2))).unwrap();
    let foobar = d.register(lit(literal("foobar").executes(3))).unwrap();
    let any = d.register(arg(argument("any", BuiltInArgument::Word).executes(4))).unwrap();
    for (input, node, command) in [("foo", foo, 1), ("bar", bar, 2), ("foobar", foobar, 3), ("other", any, 4)] {
        let parse = d.parse(input, &vec![]);
        assert_eq!(path(&parse), vec![node], "{}", input);
        assert_eq!(parse.get_reader().get_remaining_length(), 0);
        assert_eq!(parse.get_context().get_command(), Some(command));
        assert!(parse.get_exceptions().is_empty());
        assert!(parse.get_context().get_child().is_none());
        assert_eq!(plan(&parse).unwrap().command, command);
    }
}

#[test]
fn duplicate_sibling_is_rejected() {
    let mut d = Dispatcher::new();
    let foo = d.register(lit(literal("foo").executes(1))).unwrap();
    let e = d.register(lit(literal("foo").executes(2))).unwrap_err();
    assert_eq!(e.kind(), BuiltInExceptions::BuilderDuplicateChild);
    assert_eq!(e.input(), "foo");
    assert_eq!(e.cursor(), 0);
    let e = d.register(arg(argument("foo", BuiltInArgument::Word))).unwrap_err();
    assert_eq!(e.kind(), BuiltInExceptions::BuilderDuplicateChild);
    assert_eq!(d.node_count(), 2);
    // the first registration stands
    let parse = d.parse("foo", &vec![]);
    assert_eq!(parse.get_context().get_command(), Some(1));
    // the same name under another parent is fine
    assert!(d.add_child(foo, lit(literal("foo"))).is_ok());
    assert_eq!(d.node_count(), 3);
}

#[test]
fn registration_checks_its_handles() {
    let mut d = Dispatcher::new();
    let a = d.register(lit(literal("a"))).unwrap();
    let e = d.add_child(17, lit(literal("x"))).unwrap_err();
    assert_eq!(e.kind(), BuiltInExceptions::BuilderUnknownNode);
    let e = d.register(lit(literal("x").redirect(17))).unwrap_err();
    assert_eq!(e.kind(), BuiltInExceptions::BuilderUnknownNode);
    let r = d.register(lit(literal("r").redirect(a))).unwrap();
    let e = d.add_child(r, lit(literal("x"))).unwrap_err();
    assert_eq!(e.kind(), BuiltInExceptions::BuilderRedirectedParent);
    assert_eq!(d.node_count(), 3);
    assert_eq!(d.get_root(), 0);
    assert!(d.get_node(0).is_root());
    assert!(d.get_node(a).is_literal());
    assert!(!d.get_node(a).is_argument());
}

#[test]
fn literals_are_tried_before_arguments() {
    let mut d = Dispatcher::new();
    let any = d.register(arg(argument("any", BuiltInArgument::Word).executes(1))).unwrap();
    let foo = d.register(lit(literal("foo").executes(2))).unwrap();
    let parse = d.parse("foo", &vec![]);
    assert_eq!(path(&parse), vec![foo]);
    let parse = d.parse("fox", &vec![]);
    assert_eq!(path(&parse), vec![any]);
    // children stay in the order they were added
    assert_eq!(*d.get_node(0).base().get_children(), vec![any, foo]);
}

#[test]
fn arguments_tie_break_by_name() {
    let mut d = Dispatcher::new();
    let zed = d.register(arg(argument("zed", BuiltInArgument::Word).executes(1))).unwrap();
    let abe = d.register(arg(argument("abe", BuiltInArgument::Word).executes(2))).unwrap();
    let parse = d.parse("hello", &vec![]);
    assert_eq!(path(&parse), vec![abe]);
    assert_ne!(zed, abe);
    assert_eq!(parse.get_context().get_argument_names(), vec!["abe".to_string()]);
}

#[test]
fn the_branch_that_takes_all_input_wins() {
    let mut d = Dispatcher::new();
    let n = d.register(arg(argument("n", BuiltInArgument::integer()).executes(1))).unwrap();
    let w = d.register(arg(argument("w", BuiltInArgument::Word).executes(2))).unwrap();
    let parse = d.parse("12", &vec![]);
    assert_eq!(path(&parse), vec![n]);
    let parse = d.parse("twelve", &vec![]);
    assert_eq!(path(&parse), vec![w]);
    match parse.get_context().get_argument("w").unwrap().get_result() {
        ArgumentValue::Text(t) => assert_eq!(*t, text("twelve")),
        other => panic!("unexpected value {:?}", other),
    }
}

#[test]
fn failed_branches_are_kept_when_none_matches() {
    let mut d = Dispatcher::new();
    let foo = d.register(lit(literal("foo").executes(1))).unwrap();
    let n = d.register(arg(argument("n", BuiltInArgument::integer()).executes(2))).unwrap();
    let parse = d.parse("bar", &vec![]);
    assert!(path(&parse).is_empty());
    assert_eq!(parse.get_reader().get_cursor(), 0);
    let failed = parse.get_exceptions();
    assert_eq!(failed.len(), 2);
    assert_eq!(failed[0].node, foo);
    assert_eq!(failed[0].exception.kind(), BuiltInExceptions::LiteralIncorrect);
    assert_eq!(failed[1].node, n);
    assert_eq!(failed[1].exception.kind(), BuiltInExceptions::ReaderExpectedInt);
    // both failed at offset 0: none got furthest
    let e = plan(&parse).unwrap_err();
    assert_eq!(e.kind(), BuiltInExceptions::DispatcherUnknownCommand);
    assert_eq!(e.cursor(), 0);
}

#[test]
fn the_failure_that_got_furthest_is_reported() {
    let mut d = Dispatcher::new();
    d.register(lit(literal("foo").executes(1))).unwrap();
    d.register(arg(argument("n", BuiltInArgument::integer()).executes(2))).unwrap();
    // the integer reads "12" and then finds no separator, at offset 2
    let parse = d.parse("12x", &vec![]);
    let e = plan(&parse).unwrap_err();
    assert_eq!(e.kind(), BuiltInExceptions::DispatcherExpectedArgumentSeparator);
    assert_eq!(e.cursor(), 2);
    assert_eq!(e.input(), "12x");
}

#[test]
fn unknown_argument_after_a_matched_literal() {
    let mut d = Dispatcher::new();
    d.register(lit(literal("foo").executes(1))).unwrap();
    let parse = d.parse("foo bar", &vec![]);
    assert_eq!(parse.get_reader().get_cursor(), 4);
    let e = plan(&parse).unwrap_err();
    assert_eq!(e.kind(), BuiltInExceptions::DispatcherUnknownArgument);
    assert_eq!(e.cursor(), 4);

    let parse = d.parse("foo ", &vec![]);
    assert_eq!(parse.get_reader().get_cursor(), 3);
    let e = plan(&parse).unwrap_err();
    assert_eq!(e.kind(), BuiltInExceptions::DispatcherUnknownArgument);
    assert_eq!(e.cursor(), 3);
}

#[test]
fn empty_input_is_an_unknown_command() {
    let d = Dispatcher::new();
    let parse = d.parse("", &vec![]);
    let e = plan(&parse).unwrap_err();
    assert_eq!(e.kind(), BuiltInExceptions::DispatcherUnknownCommand);
    assert_eq!(e.cursor(), 0);
}

#[test]
fn requirements_gate_nodes() {
    let mut d = Dispatcher::new();
    let op = d.register(lit(literal("op").requiring(5).executes(1))).unwrap();
    let parse = d.parse("op", &vec![]);
    assert!(path(&parse).is_empty());
    assert!(parse.get_exceptions().is_empty());
    assert!(plan(&parse).is_err());
    let parse = d.parse("op", &vec![4, 5]);
    assert_eq!(path(&parse), vec![op]);
    assert_eq!(plan(&parse).unwrap().command, 1);
    assert!(d.get_node(op).base().can_use(&vec![5]));
    assert!(!d.get_node(op).base().can_use(&vec![6]));
    assert!(d.get_node(0).base().can_use(&vec![]));
}

#[test]
fn redirect_runs_what_the_target_resolves() {
    let mut d = Dispatcher::new();
    let say = d.register(lit(literal("say"))).unwrap();
    let msg = d.add_child(say, arg(argument("msg", BuiltInArgument::Greedy).executes(3))).unwrap();
    let alias = d.register(lit(literal("s").redirect(say))).unwrap();

    let direct = d.parse("say hi there", &vec![]);
    let direct_plan = plan(&direct).unwrap();
    assert_eq!(direct_plan.command, 3);
    assert!(direct_plan.hops.is_empty());

    let via = d.parse("s hi there", &vec![]);
    assert_eq!(path(&via), vec![alias]);
    let child = via.get_context().get_child().unwrap();
    assert_eq!(child.get_root_node(), say);
    assert_eq!(child.get_nodes().len(), 1);
    assert_eq!(child.get_nodes()[0].node, msg);
    assert_eq!(child.get_nodes()[0].range, StringRange::new(2, 10));
    let via_plan = plan(&via).unwrap();
    assert_eq!(via_plan.command, direct_plan.command);
    assert_eq!(via_plan.hops.len(), 1);
    assert_eq!(via_plan.hops[0].modifier, None);
    assert!(!via_plan.hops[0].forks);
    assert!(!via_plan.is_forked());
    assert_eq!(via.get_context().get_last_child().get_command(), Some(3));
    match child.get_argument("msg").unwrap().get_result() {
        ArgumentValue::Text(t) => assert_eq!(*t, text("hi there")),
        other => panic!("unexpected value {:?}", other),
    }
}

#[test]
fn redirect_to_the_root_repeats() {
    let mut d = Dispatcher::new();
    d.register(lit(literal("run").redirect(0))).unwrap();
    let go = d.register(lit(literal("go").executes(9))).unwrap();
    let parse = d.parse("run run go", &vec![]);
    let p = plan(&parse).unwrap();
    assert_eq!(p.command, 9);
    assert_eq!(p.hops.len(), 2);
    let last = parse.get_context().get_last_child();
    assert_eq!(last.get_nodes()[0].node, go);
    assert_eq!(last.get_nodes()[0].range, StringRange::new(8, 10));
    // a redirect with nothing after it has nothing to run
    let parse = d.parse("run", &vec![]);
    assert_eq!(plan(&parse).unwrap_err().kind(), BuiltInExceptions::DispatcherUnknownCommand);
}

#[test]
fn fork_carries_its_modifier() {
    let mut d = Dispatcher::new();
    let kill = d.register(lit(literal("kill").executes(4))).unwrap();
    d.register(lit(literal("each").fork(0, 11))).unwrap();
    assert!(kill > 0);
    let parse = d.parse("each kill", &vec![]);
    let p = plan(&parse).unwrap();
    assert_eq!(p.command, 4);
    assert_eq!(p.hops.len(), 1);
    assert_eq!(p.hops[0].modifier, Some(11));
    assert!(p.hops[0].forks);
    assert!(p.is_forked());
    assert!(parse.get_context().is_forked());
    assert_eq!(parse.get_context().get_redirect_modifier(), Some(11));
}

#[test]
fn fork_counts_the_executions_that_succeed() {
    let outcomes: Vec<Result<i32, String>> =
        vec![Ok(1), Err("no".to_string()), Ok(5), Ok(0), Err("never".to_string())];
    assert!(matches!(conclude(true, outcomes), Ok(3)));
    let outcomes: Vec<Result<i32, String>> = vec![Err("a".to_string()), Err("b".to_string())];
    assert!(matches!(conclude(true, outcomes), Err(ExecuteFailure::ForkFailed)));
    let outcomes: Vec<Result<i32, String>> = vec![];
    assert!(matches!(conclude(true, outcomes), Err(ExecuteFailure::ForkFailed)));
    let outcomes: Vec<Result<i32, String>> = vec![Ok(42)];
    assert!(matches!(conclude(true, outcomes), Ok(1)));
}

#[test]
fn plain_execution_returns_the_executor_result() {
    let outcomes: Vec<Result<i32, String>> = vec![Ok(42)];
    assert!(matches!(conclude(false, outcomes), Ok(42)));
    let outcomes: Vec<Result<i32, String>> = vec![Ok(0)];
    assert!(matches!(conclude(false, outcomes), Ok(0)));
    let outcomes: Vec<Result<i32, String>> = vec![Err("boom".to_string())];
    match conclude(false, outcomes) {
        Err(ExecuteFailure::Command(e)) => assert_eq!(e, "boom"),
        other => panic!("unexpected outcome {:?}", other),
    }
    let outcomes: Vec<Result<i32, String>> = vec![];
    assert!(matches!(conclude(false, outcomes), Err(ExecuteFailure::Nothing)));
}

#[test]
fn valid_input_takes_one_trailing_space() {
    let mut d = Dispatcher::new();
    let foo = d.register(lit(literal("foo"))).unwrap();
    let node: &CommandNode<BuiltInArgument> = d.get_node(foo);
    assert!(node.is_valid_input("foo"));
    assert!(node.is_valid_input("foo "));
    assert!(!node.is_valid_input("foo bar"));
    assert!(!node.is_valid_input("foo  "));
    assert!(!node.is_valid_input("fo"));
    assert!(!node.is_valid_input(""));
    let n = d.register(arg(argument("n", BuiltInArgument::integer()))).unwrap();
    let node = d.get_node(n);
    assert!(node.is_valid_input("12"));
    assert!(node.is_valid_input("12 "));
    assert!(!node.is_valid_input("12 13"));
    assert!(!node.is_valid_input("x"));
    assert!(!d.get_node(0).is_valid_input(""));
    assert!(!d.get_node(0).is_valid_input("foo"));
}

#[test]
fn node_kinds_render_their_syntax() {
    let mut d = Dispatcher::new();
    let foo = d.register(lit(literal("foo"))).unwrap();
    let n = d.register(arg(argument("count", BuiltInArgument::integer()))).unwrap();
    assert_eq!(d.get_node(0).usage_text(), "");
    assert_eq!(d.get_node(foo).usage_text(), "foo");
    assert_eq!(d.get_node(n).usage_text(), "<count>");
    assert_eq!(d.get_node(0).name(), "");
    assert_eq!(d.get_node(foo).name(), "foo");
    assert_eq!(d.get_node(n).name(), "count");
    assert_eq!(d.get_node(foo).name_chars(), text("foo"));
    assert_eq!(d.get_node(0).describe(), "<root>");
    assert_eq!(d.get_node(foo).describe(), "<literal foo>");
    assert_eq!(d.get_node(n).describe(), "<argument count: integer>");
    assert!(d.get_node(0).get_examples().is_empty());
    assert_eq!(d.get_node(foo).get_examples(), vec!["foo".to_string()]);
    assert_eq!(d.get_node(n).get_examples(), vec!["0", "123", "-123"]);
    assert!(d.get_node(foo).comes_first(d.get_node(n)));
    assert!(!d.get_node(n).comes_first(d.get_node(foo)));
}

#[test]
fn a_failed_argument_leaves_the_cursor_at_the_failure() {
    let mut d = Dispatcher::new();
    let id = d.register(arg(argument("text", BuiltInArgument::Phrase))).unwrap();
    match d.get_node(id) {
        CommandNode::Argument(node) => {
            // an opening quote and one letter: the quote is never closed
            let mut reader = StringReader::new("\"a");
            let mut context = CommandContextBuilder::new(0, 0);
            let e = node.parse(id, &mut reader, &mut context).unwrap_err();
            assert_eq!(e.kind(), BuiltInExceptions::ReaderExpectedEndOfQuote);
            assert_eq!(e.cursor(), 2);
            assert_eq!(reader.get_cursor(), 2);
            assert!(!context.has_nodes());
            assert!(context.get_argument("text").is_none());
            // an escape that is none: the failure is inside the text
            let mut reader = StringReader::new("x \"a\\nb\"");
            reader.set_cursor(2);
            let e = node.parse(id, &mut reader, &mut context).unwrap_err();
            assert_eq!(e.kind(), BuiltInExceptions::ReaderInvalidEscape);
            assert_eq!(e.cursor(), 5);
            assert_eq!(reader.get_cursor(), 5);
        }
        _ => panic!("text is an argument"),
    }
    // the dispatcher tries each child on a reader of its own
    let parse = d.parse("\"a", &vec![]);
    assert_eq!(parse.get_reader().get_cursor(), 0);
    assert_eq!(parse.get_exceptions()[0].exception.cursor(), 2);
}

#[test]
fn node_structs_have_their_own_methods() {
    let mut d = Dispatcher::new();
    let foo = d.register(lit(literal("foo").executes(3).requiring(2))).unwrap();
    let n = d
        .register(arg(argument("n", BuiltInArgument::Boolean).suggests(Some(8)).executes(4)))
        .unwrap();
    match d.get_node(0) {
        CommandNode::Root(root) => {
            assert_eq!(root.name(), "");
            assert_eq!(root.usage_text(), "");
            assert!(!root.is_valid_input("x"));
            assert!(root.get_examples().is_empty());
            assert_eq!(root.describe(), "<root>");
            let e = root.create_builder().unwrap_err();
            assert_eq!(e.kind(), BuiltInExceptions::RootIntoBuilder);
            let mut reader = StringReader::new("abc");
            let mut context = CommandContextBuilder::new(0, 0);
            assert!(root.parse(&mut reader, &mut context).is_ok());
            assert_eq!(reader.get_cursor(), 0);
            assert!(!context.has_nodes());
            let mut builder = SuggestionsBuilder::new("abc", 0);
            let context = CommandContextBuilder::new(0, 0).build("abc");
            assert!(root.list_suggestions(&context, &mut builder).unwrap().is_empty());
        }
        _ => panic!("the first node is the root"),
    }
    match d.get_node(foo) {
        CommandNode::Literal(node) => {
            assert_eq!(node.get_literal(), "foo");
            assert_eq!(node.name(), "foo");
            let b = node.create_builder();
            assert_eq!(b.literal, text("foo"));
            assert_eq!(b.base.get_command(), Some(3));
            assert_eq!(b.base.get_requirement(), Some(2));
            assert_eq!(b.base.get_redirect(), None);
            assert_eq!(b.base.get_redirect_modifier(), None);
            assert!(!b.base.is_fork());
            assert!(b.base.get_children().is_empty());
            let mut reader = StringReader::new("x foo y");
            reader.set_cursor(2);
            let mut context = CommandContextBuilder::new(0, 2);
            assert!(node.parse(foo, &mut reader, &mut context).is_ok());
            assert_eq!(reader.get_cursor(), 5);
            assert_eq!(context.get_nodes()[0].range, StringRange::new(2, 5));
            let mut reader = StringReader::new("food");
            let e = node.parse(foo, &mut reader, &mut context).unwrap_err();
            assert_eq!(e.kind(), BuiltInExceptions::LiteralIncorrect);
            assert_eq!(e.cursor(), 0);
            assert_eq!(reader.get_cursor(), 0);
            assert_eq!(context.get_nodes().len(), 1);
        }
        _ => panic!("foo is a literal"),
    }
    match d.get_node(n) {
        CommandNode::Argument(node) => {
            assert_eq!(*node.get_type(), BuiltInArgument::Boolean);
            assert_eq!(node.custom_suggestions(), Some(8));
            assert_eq!(node.name(), "n");
            assert_eq!(node.usage_text(), "<n>");
            assert_eq!(node.get_examples(), vec!["true", "false"]);
            assert_eq!(node.describe(), "<argument n: bool>");
            assert!(node.is_valid_input("true"));
            assert!(node.is_valid_input("false "));
            assert!(!node.is_valid_input("true false"));
            assert!(!node.is_valid_input("yes"));
            let b = node.create_builder();
            assert_eq!(b.name, text("n"));
            assert_eq!(b.type_, BuiltInArgument::Boolean);
            assert_eq!(b.custom_suggestions, Some(8));
            assert_eq!(b.base.get_command(), Some(4));
            let mut reader = StringReader::new("true x");
            let mut context = CommandContextBuilder::new(0, 0);
            assert!(node.parse(n, &mut reader, &mut context).is_ok());
            assert_eq!(reader.get_cursor(), 4);
            assert!(matches!(
                context.get_argument("n").unwrap().get_result(),
                ArgumentValue::Boolean(true)
            ));
            let mut reader = StringReader::new("maybe");
            let e = node.parse(n, &mut reader, &mut context).unwrap_err();
            assert_eq!(e.kind(), BuiltInExceptions::ReaderInvalidBool);
            // the provider is asked where the node has one, and its answer handed on
            let context = CommandContextBuilder::new(0, 0).build("");
            let ask = |p: u32, _context: &CommandContext, _builder: SuggestionsBuilder| {
                assert_eq!(p, 8);
                Ok(Suggestions::create(&vec![azalea_brigadier::suggestion::Suggestion::new(
                    StringRange::new(0, 0),
                    "perhaps",
                )]))
            };
            let mut builder = SuggestionsBuilder::new("", 0);
            let out = node.list_suggestions(&context, &mut builder, &ask).unwrap();
            assert_eq!(out.get_texts(), vec!["perhaps"]);
            // a failure of the provider is handed on as it is
            let failing = |_p: u32, _context: &CommandContext, builder: SuggestionsBuilder| {
                Err(CommandSyntaxException::new(
                    BuiltInExceptions::ReaderExpectedSymbol,
                    &builder.get_input().chars().collect(),
                    7,
                ))
            };
            let mut builder = SuggestionsBuilder::new("abc", 1);
            let e = node.list_suggestions(&context, &mut builder, &failing).unwrap_err();
            assert_eq!(e.kind(), BuiltInExceptions::ReaderExpectedSymbol);
            assert_eq!(e.input(), "abc");
            assert_eq!(e.cursor(), 7);
        }
        _ => panic!("n is an argument"),
    }
}
