use azalea_brigadier::arguments::{ArgumentValue, BuiltInArgument};
use azalea_brigadier::context::{CommandContextBuilder, ParsedArgument};
use azalea_brigadier::dispatcher::CommandDispatcher;
use azalea_brigadier::suggestion::StringRange;
use azalea_brigadier::tree::{ArgumentBuilder, LiteralArgumentBuilder, RequiredArgumentBuilder};

fn chars(s: &str) -> Vec<char> {
    s.chars().collect()
}

#[test]
fn a_fresh_builder_is_empty() {
    let b = CommandContextBuilder::new(3, 7);
    assert_eq!(b.get_root_node(), 3);
    assert_eq!(b.get_range(), StringRange::new(7, 7));
    assert!(!b.has_nodes());
    assert!(b.get_nodes().is_empty());
    assert_eq!(b.get_command(), None);
    assert_eq!(b.get_redirect_modifier(), None);
    assert!(!b.is_forked());
    assert!(b.get_child().is_none());
    assert!(b.get_argument("x").is_none());
    assert!(b.get_argument_names().is_empty());
    assert_eq!(b.get_last_child().get_root_node(), 3);
}

#[test]
fn arguments_keep_their_first_place() {
    let mut b = CommandContextBuilder::new(0, 0);
    b.with_argument(&chars("a"), ParsedArgument::new(0, 1, ArgumentValue::Integer(1)));
    b.with_argument(&chars("b"), ParsedArgument::new(2, 3, ArgumentValue::Integer(2)));
    b.with_argument(&chars("a"), ParsedArgument::new(4, 5, ArgumentValue::Integer(3)));
    assert_eq!(b.get_argument_names(), vec!["a", "b"]);
    let a = b.get_argument("a").unwrap();
    assert_eq!(a.get_range(), StringRange::new(4, 5));
    assert!(matches!(a.get_result(), ArgumentValue::Integer(3)));
    assert!(matches!(b.get_argument("b").unwrap().get_result(), ArgumentValue::Integer(2)));
    assert!(a.duplicate().get_result().same(&ArgumentValue::Integer(3)));
}

#[test]
fn nodes_grow_the_range() {
    let mut b = CommandContextBuilder::new(0, 4);
    b.with_node(2, StringRange::new(4, 6), None, false);
    assert_eq!(b.get_range(), StringRange::new(4, 6));
    b.with_node(5, StringRange::new(7, 12), Some(9), true);
    assert_eq!(b.get_range(), StringRange::new(4, 12));
    assert_eq!(b.get_nodes().len(), 2);
    assert_eq!(b.get_nodes()[1].node, 5);
    assert_eq!(b.get_redirect_modifier(), Some(9));
    assert!(b.is_forked());
    b.with_command(Some(3));
    assert_eq!(b.get_command(), Some(3));
    let mut child = CommandContextBuilder::new(1, 13);
    child.with_command(Some(8));
    b.with_child(child);
    assert_eq!(b.get_child().unwrap().get_root_node(), 1);
    assert_eq!(b.get_last_child().get_command(), Some(8));
    let copy = b.duplicate();
    assert_eq!(copy.get_range(), StringRange::new(4, 12));
    assert_eq!(copy.get_child().unwrap().get_command(), Some(8));
    assert_eq!(copy.get_nodes().len(), 2);
}

#[test]
fn a_built_context_has_the_input() {
    let mut d: CommandDispatcher<BuiltInArgument> = CommandDispatcher::new();
    let at = d.register(ArgumentBuilder::Literal(LiteralArgumentBuilder::literal("at").redirect(0))).unwrap();
    let set = d.register(ArgumentBuilder::Literal(LiteralArgumentBuilder::literal("set"))).unwrap();
    let n = d
        .add_child(
            set,
            ArgumentBuilder::Argument(
                RequiredArgumentBuilder::argument("n", BuiltInArgument::integer()).executes(5),
            ),
        )
        .unwrap();
    let parse = d.parse("at set 12", &vec![]);
    let context = parse.get_context().build("at set 12");
    assert_eq!(context.get_input(), "at set 12");
    assert_eq!(context.get_root_node(), 0);
    assert_eq!(context.get_range(), StringRange::new(0, 2));
    assert_eq!(context.get_command(), None);
    assert_eq!(context.get_redirect_modifier(), None);
    assert!(!context.is_forked());
    assert!(context.has_nodes());
    assert_eq!(context.get_nodes()[0].node, at);
    assert!(context.get_argument("n").is_none());
    let child = context.get_child().unwrap();
    assert_eq!(child.get_input(), "at set 12");
    assert_eq!(child.get_command(), Some(5));
    assert_eq!(child.get_range(), StringRange::new(3, 9));
    assert_eq!(child.get_nodes().len(), 2);
    assert_eq!(child.get_nodes()[0].node, set);
    assert_eq!(child.get_nodes()[1].node, n);
    assert!(matches!(child.get_argument("n").unwrap().get_result(), ArgumentValue::Integer(12)));
    assert!(child.get_child().is_none());
}

#[test]
fn smart_usage_is_short() {
    let mut d: CommandDispatcher<BuiltInArgument> = CommandDispatcher::new();
    let tp = d.register(ArgumentBuilder::Literal(LiteralArgumentBuilder::literal("tp"))).unwrap();
    let target = d
        .add_child(
            tp,
            ArgumentBuilder::Argument(
                RequiredArgumentBuilder::argument("target", BuiltInArgument::Word).executes(1),
            ),
        )
        .unwrap();
    d.add_child(
        target,
        ArgumentBuilder::Argument(
            RequiredArgumentBuilder::argument("to", BuiltInArgument::Word).executes(2),
        ),
    )
    .unwrap();
    let stop = d
        .register(ArgumentBuilder::Literal(LiteralArgumentBuilder::literal("stop").executes(3).requiring(9)))
        .unwrap();
    let again = d.register(ArgumentBuilder::Literal(LiteralArgumentBuilder::literal("again").redirect(0))).unwrap();
    let teleport =
        d.register(ArgumentBuilder::Literal(LiteralArgumentBuilder::literal("teleport").redirect(tp))).unwrap();
    let give = d.register(ArgumentBuilder::Literal(LiteralArgumentBuilder::literal("give"))).unwrap();
    d.add_child(give, ArgumentBuilder::Literal(LiteralArgumentBuilder::literal("all").executes(4))).unwrap();
    d.add_child(
        give,
        ArgumentBuilder::Argument(RequiredArgumentBuilder::argument("item", BuiltInArgument::Word).executes(4)),
    )
    .unwrap();
    let take = d.register(ArgumentBuilder::Literal(LiteralArgumentBuilder::literal("take").executes(6))).unwrap();
    d.add_child(take, ArgumentBuilder::Literal(LiteralArgumentBuilder::literal("all").executes(4))).unwrap();
    d.add_child(
        take,
        ArgumentBuilder::Argument(RequiredArgumentBuilder::argument("item", BuiltInArgument::Word).executes(4)),
    )
    .unwrap();

    let usage = d.get_smart_usage(0, &vec![]);
    assert_eq!(
        usage,
        vec![
            (tp, "tp <target> [<to>]".to_string()),
            (again, "again ...".to_string()),
            (teleport, "teleport -> tp".to_string()),
            (give, "give (all|<item>)".to_string()),
            (take, "take [all|<item>]".to_string()),
        ]
    );
    let usage = d.get_smart_usage(0, &vec![9]);
    assert_eq!(usage.len(), 6);
    assert_eq!(usage[1], (stop, "stop".to_string()));
    assert_eq!(d.get_smart_usage(tp, &vec![]), vec![(target, "<target> [<to>]".to_string())]);
    assert_eq!(d.get_smart_usage(target, &vec![])[0].1, "[<to>]");
    assert!(d.get_smart_usage(stop, &vec![]).is_empty());
    assert!(d.get_smart_usage(77, &vec![]).is_empty());
}
