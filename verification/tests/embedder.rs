use azalea_brigadier::arguments::{ArgumentValue, BuiltInArgument};
use azalea_brigadier::context::CommandContext;
use azalea_brigadier::dispatcher::CommandDispatcher;
use azalea_brigadier::exceptions::{BuiltInExceptions, CommandSyntaxException};
use azalea_brigadier::execution::{execute, ExecuteError};
use azalea_brigadier::suggestion::{Suggestions, SuggestionsBuilder};
use azalea_brigadier::tree::{ArgumentBuilder, LiteralArgumentBuilder, RequiredArgumentBuilder};

type Dispatcher = CommandDispatcher<BuiltInArgument>;

/// A source: a name and a permission level.
#[derive(Clone, Debug, PartialEq)]
struct Source {
    name: String,
    level: u32,
}

fn source(name: &str, level: u32) -> Source {
    Source { name: name.to_string(), level }
}

/// Requirement `r` holds for a source of at least level `r`.
fn holds(r: u32, s: &Source) -> bool {
    s.level >= r
}

/// Command 1 returns the length of the source's name; command 2 the
/// integer argument `n`; command 3 fails for sources named "bad".
fn run(command: u32, context: &CommandContext, s: &Source) -> Result<i32, String> {
    match command {
        1 => Ok(s.name.len() as i32),
        2 => match context.get_argument("n").map(|a| a.get_result()) {
            Some(ArgumentValue::Integer(n)) => Ok(*n),
            _ => Err("no n".to_string()),
        },
        3 => {
            if s.name == "bad" {
                Err(format!("{} failed", s.name))
            } else {
                Ok(1)
            }
        }
        _ => Err("no such command".to_string()),
    }
}

/// Modifier 1 derives "good", "bad", "fine"; modifier 2 derives nothing;
/// modifier 3 fails; modifier 4 renames the source.
fn derive(modifier: u32, _context: &CommandContext, s: &Source) -> Result<Vec<Source>, String> {
    match modifier {
        1 => Ok(vec![source("good", s.level), source("bad", s.level), source("fine", s.level)]),
        2 => Ok(vec![]),
        3 => Err("no sources".to_string()),
        4 => Ok(vec![source("renamed", s.level)]),
        _ => Err("no such modifier".to_string()),
    }
}

fn tree() -> Dispatcher {
    let mut d = Dispatcher::new();
    d.register(ArgumentBuilder::Literal(LiteralArgumentBuilder::literal("name").executes(1))).unwrap();
    let set = d.register(ArgumentBuilder::Literal(LiteralArgumentBuilder::literal("set"))).unwrap();
    d.add_child(
        set,
        ArgumentBuilder::Argument(
            RequiredArgumentBuilder::argument("n", BuiltInArgument::integer()).executes(2),
        ),
    )
    .unwrap();
    d.register(ArgumentBuilder::Literal(LiteralArgumentBuilder::literal("check").executes(3))).unwrap();
    d.register(ArgumentBuilder::Literal(LiteralArgumentBuilder::literal("all").fork(0, 1))).unwrap();
    d.register(ArgumentBuilder::Literal(LiteralArgumentBuilder::literal("none").fork(0, 2))).unwrap();
    d.register(ArgumentBuilder::Literal(LiteralArgumentBuilder::literal("broken").fork(0, 3))).unwrap();
    d.register(ArgumentBuilder::Literal(LiteralArgumentBuilder::literal("plain").redirect(0))).unwrap();
    d.register(ArgumentBuilder::Literal(
        LiteralArgumentBuilder::literal("as").forward(Some(0), Some(4), false),
    ))
    .unwrap();
    d.register(ArgumentBuilder::Literal(
        LiteralArgumentBuilder::literal("lost").forward(Some(0), Some(3), false),
    ))
    .unwrap();
    d.register(ArgumentBuilder::Literal(
        LiteralArgumentBuilder::literal("void").forward(Some(0), Some(2), false),
    ))
    .unwrap();
    d.register(ArgumentBuilder::Literal(LiteralArgumentBuilder::literal("admin").requiring(4).executes(1)))
        .unwrap();
    d
}

fn go(d: &Dispatcher, input: &str, s: Source) -> Result<i32, ExecuteError<String>> {
    let parse = d.parse_for(input, &s, &holds);
    execute(&parse, s, &run, &derive)
}

#[test]
fn execute_returns_the_executor_result() {
    let d = tree();
    assert!(matches!(go(&d, "name", source("Steve", 0)), Ok(5)));
    assert!(matches!(go(&d, "set 42", source("Steve", 0)), Ok(42)));
    assert!(matches!(go(&d, "set -7", source("Steve", 0)), Ok(-7)));
    assert!(matches!(go(&d, "set 0", source("Steve", 0)), Ok(0)));
    assert!(matches!(go(&d, "check", source("ok", 0)), Ok(1)));
    match go(&d, "check", source("bad", 0)) {
        Err(ExecuteError::Command(e)) => assert_eq!(e, "bad failed"),
        other => panic!("unexpected outcome {:?}", other),
    }
}

#[test]
fn execute_reports_what_did_not_parse() {
    let d = tree();
    match go(&d, "set", source("Steve", 0)) {
        Err(ExecuteError::Syntax(e)) => {
            assert_eq!(e.kind(), BuiltInExceptions::DispatcherUnknownCommand);
            assert_eq!(e.cursor(), 3);
        }
        other => panic!("unexpected outcome {:?}", other),
    }
    match go(&d, "set x", source("Steve", 0)) {
        Err(ExecuteError::Syntax(e)) => {
            assert_eq!(e.kind(), BuiltInExceptions::ReaderExpectedInt);
            assert_eq!(e.cursor(), 4);
        }
        other => panic!("unexpected outcome {:?}", other),
    }
    match go(&d, "nothing", source("Steve", 0)) {
        Err(ExecuteError::Syntax(e)) => {
            assert_eq!(e.kind(), BuiltInExceptions::DispatcherUnknownCommand);
            assert_eq!(e.cursor(), 0);
        }
        other => panic!("unexpected outcome {:?}", other),
    }
}

#[test]
fn plain_redirect_gives_what_the_target_gives() {
    let d = tree();
    for (input, expected) in [("name", 5), ("set 42", 42), ("check", 1)] {
        let direct = go(&d, input, source("Steve", 0)).unwrap();
        let via = go(&d, &format!("plain {}", input), source("Steve", 0)).unwrap();
        let twice = go(&d, &format!("plain plain {}", input), source("Steve", 0)).unwrap();
        assert_eq!(direct, expected);
        assert_eq!(via, expected);
        assert_eq!(twice, expected);
    }
    // a modifier that does not fork hands its source on
    assert!(matches!(go(&d, "as name", source("Steve", 0)), Ok(7)));
    match go(&d, "lost name", source("Steve", 0)) {
        Err(ExecuteError::Command(e)) => assert_eq!(e, "no sources"),
        other => panic!("unexpected outcome {:?}", other),
    }
    // a modifier that does not fork and derives no source leaves nothing to run
    assert!(matches!(go(&d, "void name", source("Steve", 0)), Err(ExecuteError::Nothing)));
}

#[test]
fn fork_returns_how_many_succeeded() {
    let d = tree();
    // three sources, each succeeds
    assert!(matches!(go(&d, "all name", source("Steve", 0)), Ok(3)));
    // three sources, the one named "bad" fails
    assert!(matches!(go(&d, "all check", source("Steve", 0)), Ok(2)));
    // nine sources, three of them fail
    assert!(matches!(go(&d, "all all check", source("Steve", 0)), Ok(6)));
    // no sources at all
    assert!(matches!(go(&d, "none name", source("Steve", 0)), Err(ExecuteError::ForkFailed)));
    // the modifier itself fails
    assert!(matches!(go(&d, "broken name", source("Steve", 0)), Err(ExecuteError::ForkFailed)));
    // each of three sources is refused further on
    assert!(matches!(go(&d, "all none name", source("Steve", 0)), Err(ExecuteError::ForkFailed)));
}

#[test]
fn execute_str_parses_and_runs() {
    let d = tree();
    assert!(matches!(d.execute_str("set 42", source("Steve", 0), &holds, &run, &derive), Ok(42)));
    assert!(matches!(d.execute_str("all check", source("Steve", 0), &holds, &run, &derive), Ok(2)));
    assert!(matches!(d.execute_str("admin", source("op", 9), &holds, &run, &derive), Ok(2)));
    assert!(matches!(
        d.execute_str("admin", source("guest", 0), &holds, &run, &derive),
        Err(ExecuteError::Syntax(_))
    ));
}

#[test]
fn requirements_are_asked_of_the_source() {
    let d = tree();
    assert_eq!(d.granted_for(&source("op", 4), &holds), vec![4]);
    assert!(d.granted_for(&source("guest", 3), &holds).is_empty());
    assert!(matches!(go(&d, "admin", source("op", 4)), Ok(2)));
    match go(&d, "admin", source("guest", 3)) {
        Err(ExecuteError::Syntax(e)) => {
            assert_eq!(e.kind(), BuiltInExceptions::DispatcherUnknownCommand)
        }
        other => panic!("unexpected outcome {:?}", other),
    }
}

#[test]
fn ambiguity_is_reported_not_fatal() {
    let mut d = Dispatcher::new();
    let a = d
        .register(ArgumentBuilder::Argument(
            RequiredArgumentBuilder::argument("a", BuiltInArgument::Word).executes(1),
        ))
        .unwrap();
    d.register(ArgumentBuilder::Argument(
        RequiredArgumentBuilder::argument("b", BuiltInArgument::Phrase).executes(2),
    ))
    .unwrap();
    d.register(ArgumentBuilder::Literal(LiteralArgumentBuilder::literal("only").executes(3))).unwrap();
    let parse = d.parse("word", &vec![]);
    assert!(parse.is_ambiguous());
    assert_eq!(parse.get_context().get_nodes()[0].node, a);
    // one candidate alone is not ambiguous
    let parse = d.parse("\"two words\"", &vec![]);
    assert!(!parse.is_ambiguous());
    assert_eq!(parse.get_context().get_command(), Some(2));
    // a literal that matches is one of three candidates
    let parse = d.parse("only", &vec![]);
    assert!(parse.is_ambiguous());
    assert_eq!(parse.get_context().get_command(), Some(3));
    // candidates that leave input over do not make a tie
    let parse = d.parse("word more", &vec![]);
    assert!(!parse.is_ambiguous());
}

#[test]
fn providers_are_asked_for_their_children() {
    let mut d = Dispatcher::new();
    let give = d.register(ArgumentBuilder::Literal(LiteralArgumentBuilder::literal("give"))).unwrap();
    d.add_child(give, ArgumentBuilder::Literal(LiteralArgumentBuilder::literal("all"))).unwrap();
    d.add_child(
        give,
        ArgumentBuilder::Argument(
            RequiredArgumentBuilder::argument("item", BuiltInArgument::Word).suggests(Some(6)),
        ),
    )
    .unwrap();
    let ask = |p: u32,
               context: &CommandContext,
               builder: SuggestionsBuilder|
     -> Result<Suggestions, CommandSyntaxException> {
        assert_eq!(p, 6);
        assert_eq!(context.get_input(), builder.get_input());
        let mut builder = builder;
        for item in ["apple", "Axe", "stone"] {
            if item.to_lowercase().starts_with(&builder.get_remaining().to_lowercase()) {
                builder.suggest(item);
            }
        }
        Ok(builder.build())
    };
    let parse = d.parse("give a", &vec![]);
    let out = d.get_completion_suggestions(&parse, 6, &vec![], &ask);
    assert_eq!(out.get_texts(), vec!["all", "apple", "Axe"]);
    let out = d.get_completion_suggestions(&parse, 5, &vec![], &ask);
    assert_eq!(out.get_texts(), vec!["all", "apple", "Axe", "stone"]);
    let parse = d.parse("gi", &vec![]);
    let out = d.get_completion_suggestions(&parse, 2, &vec![], &ask);
    assert_eq!(out.get_texts(), vec!["give"]);
}
