use azalea_brigadier::arguments::{ArgumentType, ArgumentValue, BuiltInArgument, WordArgument};
use azalea_brigadier::chat::{
    BaseComponent, Component, StringOrComponent, TextComponent, TranslatableComponent,
};
use azalea_brigadier::dispatcher::CommandDispatcher;
use azalea_brigadier::context::{CommandContext, CommandContextBuilder};
use azalea_brigadier::exceptions::{BuiltInExceptions, CommandSyntaxException};
use azalea_brigadier::string_reader::StringReader;
use azalea_brigadier::suggestion::{StringRange, Suggestion, Suggestions, SuggestionsBuilder};
use azalea_brigadier::tree::{ArgumentBuilder, LiteralArgumentBuilder, RequiredArgumentBuilder};

fn chars(s: &str) -> Vec<char> {
    s.chars().collect()
}

/// A stand-in for trees without providers: it is never asked.
fn no_provider(
    p: u32,
    _context: &CommandContext,
    _builder: SuggestionsBuilder,
) -> Result<Suggestions, CommandSyntaxException> {
    panic!("no node has the provider {}", p)
}

fn empty_context() -> CommandContext {
    CommandContextBuilder::new(0, 0).build("")
}

/// What `kind` makes of `input`, and where it leaves the cursor. A failure
/// carries the offset at which the cursor is left.
fn parse_with(kind: BuiltInArgument, input: &str) -> (Result<ArgumentValue, BuiltInExceptions>, usize) {
    let mut reader = StringReader::new(input);
    let result = kind.parse(&mut reader);
    let cursor = reader.get_cursor();
    let result = result.map_err(|e| {
        assert_eq!(e.cursor(), cursor);
        assert_eq!(e.input(), input);
        e.kind()
    });
    (result, cursor)
}

#[test]
fn two_argument_types_merge_their_candidates() {
    let fruit = ["Foo", "bar", "fig"];
    let tools = ["file", "Foo", "saw"];
    let mut d: CommandDispatcher<WordArgument> = CommandDispatcher::new();
    let get = d.register(ArgumentBuilder::Literal(LiteralArgumentBuilder::literal("get"))).unwrap();
    d.add_child(
        get,
        ArgumentBuilder::Argument(RequiredArgumentBuilder::argument(
            "fruit",
            WordArgument::new("fruit", &fruit),
        )),
    )
    .unwrap();
    d.add_child(
        get,
        ArgumentBuilder::Argument(RequiredArgumentBuilder::argument(
            "tool",
            WordArgument::new("tool", &tools),
        )),
    )
    .unwrap();

    let parse = d.parse("get ", &vec![]);
    let out = d.get_completion_suggestions(&parse, 4, &vec![], &no_provider);
    assert_eq!(out.get_texts(), vec!["bar", "fig", "file", "Foo", "saw"]);
    assert_eq!(out.get(0).get_range(), StringRange::new(4, 4));

    let parse = d.parse("get f", &vec![]);
    let out = d.get_completion_suggestions(&parse, 5, &vec![], &no_provider);
    assert_eq!(out.get_texts(), vec!["fig", "file", "Foo"]);
    assert_eq!(out.get(2).get_range(), StringRange::new(4, 5));
    assert_eq!(out.get(2).apply("get f"), "get Foo");
    assert_eq!(out.get_range(), StringRange::new(4, 5));
}

#[test]
fn literals_complete_at_the_root() {
    let mut d: CommandDispatcher<BuiltInArgument> = CommandDispatcher::new();
    for name in ["tell", "Teleport", "time", "say"] {
        d.register(ArgumentBuilder::Literal(LiteralArgumentBuilder::literal(name))).unwrap();
    }
    let parse = d.parse("t", &vec![]);
    let out = d.get_completion_suggestions(&parse, 1, &vec![], &no_provider);
    assert_eq!(out.get_texts(), vec!["Teleport", "tell", "time"]);
    assert_eq!(out.get(0).get_range(), StringRange::new(0, 1));

    let parse = d.parse("", &vec![]);
    let out = d.get_completion_suggestions(&parse, 0, &vec![], &no_provider);
    assert_eq!(out.get_texts(), vec!["say", "Teleport", "tell", "time"]);

    // a cursor inside the typed text completes what is before it
    let parse = d.parse("tex", &vec![]);
    let out = d.get_completion_suggestions(&parse, 2, &vec![], &no_provider);
    assert_eq!(out.get_texts(), vec!["Teleport", "tell"]);
    assert_eq!(out.get(0).get_range(), StringRange::new(0, 2));

    // what is typed in full is not offered again
    let parse = d.parse("say", &vec![]);
    let out = d.get_completion_suggestions(&parse, 3, &vec![], &no_provider);
    assert!(out.is_empty());
}

#[test]
fn completion_respects_requirements_and_providers() {
    let mut d: CommandDispatcher<BuiltInArgument> = CommandDispatcher::new();
    let give = d.register(ArgumentBuilder::Literal(LiteralArgumentBuilder::literal("give"))).unwrap();
    d.add_child(
        give,
        ArgumentBuilder::Literal(LiteralArgumentBuilder::literal("all").requiring(3)),
    )
    .unwrap();
    d.add_child(
        give,
        ArgumentBuilder::Argument(
            RequiredArgumentBuilder::argument("item", BuiltInArgument::Word).suggests(Some(1)),
        ),
    )
    .unwrap();
    let parse = d.parse("give ", &vec![]);
    let ask = |p: u32, context: &CommandContext, builder: SuggestionsBuilder| {
        assert_eq!(p, 1);
        assert_eq!(context.get_input(), "give ");
        assert_eq!(builder.get_input(), "give ");
        assert_eq!(builder.get_start(), 5);
        Ok(Suggestions::create(&vec![
            Suggestion::new(StringRange::new(5, 5), "stone"),
            Suggestion::new(StringRange::new(5, 5), "apple"),
        ]))
    };
    let out = d.get_completion_suggestions(&parse, 5, &vec![], &ask);
    assert_eq!(out.get_texts(), vec!["apple", "stone"]);
    let out = d.get_completion_suggestions(&parse, 5, &vec![3], &ask);
    assert_eq!(out.get_texts(), vec!["all", "apple", "stone"]);
    let context = parse.get_context().build("give ");
    let parts = d.completion_parts(give, &context, &chars("give "), 5, &vec![3], &ask);
    assert_eq!(parts.len(), 2);
    assert_eq!(parts[0].get_texts(), vec!["all"]);
    assert_eq!(parts[1].get_texts(), vec!["apple", "stone"]);
}

#[test]
fn a_source_that_fails_contributes_nothing() {
    let mut d: CommandDispatcher<BuiltInArgument> = CommandDispatcher::new();
    let give = d.register(ArgumentBuilder::Literal(LiteralArgumentBuilder::literal("give"))).unwrap();
    d.add_child(give, ArgumentBuilder::Literal(LiteralArgumentBuilder::literal("all"))).unwrap();
    d.add_child(
        give,
        ArgumentBuilder::Argument(
            RequiredArgumentBuilder::argument("item", BuiltInArgument::Word).suggests(Some(1)),
        ),
    )
    .unwrap();
    let parse = d.parse("give ", &vec![]);
    let failing = |_p: u32, _context: &CommandContext, builder: SuggestionsBuilder| {
        Err(CommandSyntaxException::new(
            BuiltInExceptions::ReaderExpectedSymbol,
            &builder.get_input().chars().collect(),
            builder.get_start(),
        ))
    };
    let out = d.get_completion_suggestions(&parse, 5, &vec![], &failing);
    assert_eq!(out.get_texts(), vec!["all"]);
}

#[test]
fn usage_lists_every_command() {
    let mut d: CommandDispatcher<BuiltInArgument> = CommandDispatcher::new();
    let tp = d.register(ArgumentBuilder::Literal(LiteralArgumentBuilder::literal("tp"))).unwrap();
    let target = d
        .add_child(
            tp,
            ArgumentBuilder::Argument(
                RequiredArgumentBuilder::argument("target", BuiltInArgument::Word).executes(1),
            ),
        )
        .unwrap();
    d.add_child(
        target,
        ArgumentBuilder::Argument(
            RequiredArgumentBuilder::argument("to", BuiltInArgument::Word).executes(2),
        ),
    )
    .unwrap();
    d.register(ArgumentBuilder::Literal(LiteralArgumentBuilder::literal("stop").executes(3).requiring(9)))
        .unwrap();
    d.register(ArgumentBuilder::Literal(LiteralArgumentBuilder::literal("again").redirect(0))).unwrap();
    d.register(ArgumentBuilder::Literal(LiteralArgumentBuilder::literal("teleport").redirect(tp)))
        .unwrap();

    assert_eq!(
        d.get_all_usage(0, &vec![], false),
        vec!["tp <target>", "tp <target> <to>", "stop", "again ...", "teleport -> tp"]
    );
    assert_eq!(
        d.get_all_usage(0, &vec![], true),
        vec!["tp <target>", "tp <target> <to>", "again ...", "teleport -> tp"]
    );
    assert_eq!(d.get_all_usage(0, &vec![9], true).len(), 5);
    assert_eq!(d.get_all_usage(tp, &vec![], false), vec!["<target>", "<target> <to>"]);
    assert_eq!(d.get_all_usage(target, &vec![], false), vec!["", "<to>"]);
    assert!(d.get_all_usage(99, &vec![], false).is_empty());
}

#[test]
fn built_in_types_parse_their_values() {
    assert!(matches!(parse_with(BuiltInArgument::Boolean, "true"), (Ok(ArgumentValue::Boolean(true)), 4)));
    assert!(matches!(
        parse_with(BuiltInArgument::Boolean, "nope"),
        (Err(BuiltInExceptions::ReaderInvalidBool), 0)
    ));
    assert!(matches!(parse_with(BuiltInArgument::integer(), "-17 x"), (Ok(ArgumentValue::Integer(-17)), 3)));
    let small = BuiltInArgument::Integer { minimum: 0, maximum: 10 };
    assert!(matches!(parse_with(small, "10"), (Ok(ArgumentValue::Integer(10)), 2)));
    assert!(matches!(parse_with(small, "0"), (Ok(ArgumentValue::Integer(0)), 1)));
    assert!(matches!(parse_with(small, "11"), (Err(BuiltInExceptions::IntegerTooHigh), 0)));
    assert!(matches!(parse_with(small, "-1"), (Err(BuiltInExceptions::IntegerTooLow), 0)));
    assert!(matches!(parse_with(small, "x"), (Err(BuiltInExceptions::ReaderExpectedInt), 0)));
    match parse_with(BuiltInArgument::Word, "one two") {
        (Ok(ArgumentValue::Text(t)), 3) => assert_eq!(t, chars("one")),
        other => panic!("unexpected outcome {:?}", other),
    }
    match parse_with(BuiltInArgument::Phrase, "\"one two\" three") {
        (Ok(ArgumentValue::Text(t)), 9) => assert_eq!(t, chars("one two")),
        other => panic!("unexpected outcome {:?}", other),
    }
    assert!(matches!(
        parse_with(BuiltInArgument::Phrase, "\"one"),
        (Err(BuiltInExceptions::ReaderExpectedEndOfQuote), 4)
    ));
    match parse_with(BuiltInArgument::Greedy, "one \"two three") {
        (Ok(ArgumentValue::Text(t)), 14) => assert_eq!(t, chars("one \"two three")),
        other => panic!("unexpected outcome {:?}", other),
    }
}

#[test]
fn built_in_types_describe_themselves() {
    assert_eq!(BuiltInArgument::Boolean.get_examples(), vec!["true", "false"]);
    assert_eq!(BuiltInArgument::integer().get_examples(), vec!["0", "123", "-123"]);
    assert_eq!(BuiltInArgument::Word.get_examples(), vec!["word", "words_with_underscores"]);
    assert_eq!(BuiltInArgument::Phrase.get_examples(), vec!["\"quoted phrase\"", "word", "\"\""]);
    assert_eq!(
        BuiltInArgument::Greedy.get_examples(),
        vec!["word", "words with spaces", "\"and symbols\""]
    );
    assert_eq!(BuiltInArgument::Boolean.describe(), "bool");
    assert_eq!(BuiltInArgument::integer().describe(), "integer");
    assert_eq!(BuiltInArgument::Word.describe(), "word");
    assert_eq!(BuiltInArgument::Phrase.describe(), "phrase");
    assert_eq!(BuiltInArgument::Greedy.describe(), "greedy");
    let mut builder = SuggestionsBuilder::new("tr", 0);
    assert!(BuiltInArgument::Boolean
        .list_suggestions(&empty_context(), &mut builder)
        .unwrap()
        .is_empty());
    // what the builder holds already is part of the result
    builder.suggest("true");
    let out = BuiltInArgument::Boolean.list_suggestions(&empty_context(), &mut builder).unwrap();
    assert_eq!(out.get_texts(), vec!["true"]);
    assert_eq!(
        BuiltInArgument::integer(),
        BuiltInArgument::Integer { minimum: i32::MIN, maximum: i32::MAX }
    );
}

#[test]
fn every_example_is_valid_for_its_type() {
    for kind in [
        BuiltInArgument::Boolean,
        BuiltInArgument::integer(),
        BuiltInArgument::Word,
        BuiltInArgument::Phrase,
        BuiltInArgument::Greedy,
    ] {
        for example in kind.get_examples() {
            let mut reader = StringReader::new(&example);
            assert!(kind.parse(&mut reader).is_ok(), "{:?} {}", kind, example);
            assert!(!reader.can_read(), "{:?} {}", kind, example);
        }
    }
}

#[test]
fn word_argument_knows_its_words() {
    let words = ["Steve", "Alex", "stan"];
    let t = WordArgument::new("player", &words);
    assert_eq!(t.get_examples(), vec!["Steve", "Alex", "stan"]);
    assert_eq!(t.describe(), "player");
    let mut reader = StringReader::new("Herobrine now");
    match t.parse(&mut reader) {
        Ok(ArgumentValue::Text(name)) => assert_eq!(name, chars("Herobrine")),
        other => panic!("unexpected outcome {:?}", other),
    }
    assert_eq!(reader.get_cursor(), 9);
    let mut builder = SuggestionsBuilder::new("tp st", 3);
    let out = t.list_suggestions(&empty_context(), &mut builder).unwrap();
    assert_eq!(out.get_texts(), vec!["stan", "Steve"]);
    let mut builder = SuggestionsBuilder::new("tp stan", 3);
    let out = t.list_suggestions(&empty_context(), &mut builder).unwrap();
    assert!(out.is_empty());
    // what the builder holds already is part of the result
    let mut builder = SuggestionsBuilder::new("tp a", 3);
    builder.suggest("anyone");
    let out = t.list_suggestions(&empty_context(), &mut builder).unwrap();
    assert_eq!(out.get_texts(), vec!["Alex", "anyone"]);
    let copy = builder.duplicate();
    assert_eq!(copy.get_input(), "tp a");
    assert_eq!(copy.get_start(), 3);
    assert_eq!(copy.build().get_texts(), vec!["Alex", "anyone"]);
}

#[test]
fn rendered_values_parse_back() {
    for b in [true, false] {
        let written = ArgumentValue::Boolean(b).render();
        let mut reader = StringReader::new(&written);
        assert!(ArgumentValue::Boolean(b).same(&BuiltInArgument::Boolean.parse(&mut reader).unwrap()));
        assert!(!reader.can_read());
    }
    for v in [0, 7, 10, -1, 12345, -98765, i32::MAX, i32::MIN] {
        let written = ArgumentValue::Integer(v).render();
        assert_eq!(written, v.to_string());
        let mut reader = StringReader::new(&written);
        assert!(ArgumentValue::Integer(v).same(&BuiltInArgument::integer().parse(&mut reader).unwrap()));
        assert!(!reader.can_read());
    }
    for t in ["", "word", "two words", "say \"hi\"", "back\\slash", "'single'", "\\\""] {
        let value = ArgumentValue::Text(chars(t));
        let written = value.render();
        let mut reader = StringReader::new(&written);
        assert!(value.same(&BuiltInArgument::Phrase.parse(&mut reader).unwrap()), "{}", t);
        assert!(!reader.can_read());
    }
    assert_eq!(ArgumentValue::Text(chars("a\"b")).render(), "\"a\\\"b\"");
    assert_eq!(ArgumentValue::Boolean(true).render(), "true");
    assert!(!ArgumentValue::Boolean(true).same(&ArgumentValue::Integer(1)));
    assert!(ArgumentValue::Integer(3).duplicate().same(&ArgumentValue::Integer(3)));
}

#[test]
fn each_type_parses_back_what_it_wrote() {
    let cases = [
        (BuiltInArgument::Boolean, ArgumentValue::Boolean(false), Some("false")),
        (BuiltInArgument::integer(), ArgumentValue::Integer(-40), Some("-40")),
        (BuiltInArgument::Integer { minimum: 0, maximum: 9 }, ArgumentValue::Integer(10), None),
        (BuiltInArgument::Word, ArgumentValue::Text(chars("one_word")), Some("one_word")),
        (BuiltInArgument::Word, ArgumentValue::Text(chars("two words")), None),
        (BuiltInArgument::Phrase, ArgumentValue::Text(chars("two words")), Some("\"two words\"")),
        (BuiltInArgument::Greedy, ArgumentValue::Text(chars("all \"of\" it")), Some("all \"of\" it")),
        (BuiltInArgument::Boolean, ArgumentValue::Integer(1), None),
        (BuiltInArgument::Word, ArgumentValue::Boolean(true), None),
    ];
    for (kind, value, expected) in cases {
        let written = kind.render(&value);
        assert_eq!(written.as_deref(), expected, "{:?} {:?}", kind, value);
        if let Some(text) = written {
            // from the start, and from a cursor inside a longer input
            for before in ["", "give 3 ", "\"x\" "] {
                let input = format!("{}{}", before, text);
                let mut reader = StringReader::new(&input);
                reader.set_cursor(before.chars().count());
                let back = kind.parse(&mut reader).unwrap();
                assert!(back.same(&value), "{:?} {:?} after {:?}", kind, value, before);
                assert!(!reader.can_read());
            }
        }
    }
    let words = ["Steve"];
    let player = WordArgument::new("player", &words);
    assert_eq!(player.render(&ArgumentValue::Text(chars("Alex"))).as_deref(), Some("Alex"));
    assert_eq!(player.render(&ArgumentValue::Text(chars("A lex"))), None);
}

#[test]
fn a_node_records_what_its_type_wrote() {
    let mut d: CommandDispatcher<BuiltInArgument> = CommandDispatcher::new();
    let id = d
        .register(ArgumentBuilder::Argument(RequiredArgumentBuilder::argument(
            "text",
            BuiltInArgument::Phrase,
        )))
        .unwrap();
    let value = ArgumentValue::Text(chars("say \"hi\""));
    let written = BuiltInArgument::Phrase.render(&value).unwrap();
    let input = format!("tell {}", written);
    let mut reader = StringReader::new(&input);
    reader.set_cursor(5);
    let mut context = CommandContextBuilder::new(0, 5);
    match d.get_node(id) {
        azalea_brigadier::tree::CommandNode::Argument(node) => {
            assert!(node.parse(id, &mut reader, &mut context).is_ok());
        }
        _ => panic!("text is an argument"),
    }
    let end = input.chars().count();
    assert_eq!(reader.get_cursor(), end);
    let parsed = context.get_argument("text").unwrap();
    assert!(parsed.get_result().same(&value));
    assert_eq!(parsed.get_range(), StringRange::new(5, end));
}

#[test]
fn translatable_component_keeps_key_and_arguments() {
    let c = TranslatableComponent::new(
        "chat.type.text".to_string(),
        vec![
            StringOrComponent::String("Steve".to_string()),
            StringOrComponent::Component(Component::Text(TextComponent::new("hello".to_string()))),
        ],
    );
    assert_eq!(c.key, "chat.type.text");
    assert_eq!(c.args.len(), 2);
    assert!(c.base.siblings.is_empty());
    match &c.args[0] {
        StringOrComponent::String(s) => assert_eq!(s, "Steve"),
        other => panic!("unexpected argument {:?}", other),
    }
    match &c.args[1] {
        StringOrComponent::Component(Component::Text(t)) => {
            assert_eq!(t.text, "hello");
            assert!(t.base.siblings.is_empty());
        }
        other => panic!("unexpected argument {:?}", other),
    }
    let nested = TranslatableComponent::new(
        "outer".to_string(),
        vec![StringOrComponent::Component(Component::Translatable(c))],
    );
    assert_eq!(nested.args.len(), 1);
    assert!(BaseComponent::new().siblings.is_empty());
}

#[test]
fn a_literal_typed_in_full_can_silence_its_siblings() {
    let words = ["timer", "tick", "time"];
    let mut d: CommandDispatcher<WordArgument> = CommandDispatcher::new();
    d.register(ArgumentBuilder::Literal(LiteralArgumentBuilder::literal("time"))).unwrap();
    d.register(ArgumentBuilder::Argument(RequiredArgumentBuilder::argument(
        "word",
        WordArgument::new("word", &words),
    )))
    .unwrap();
    assert!(!d.is_exclusive());
    let parse = d.parse("time", &vec![]);
    // by default the siblings of the literal still contribute
    let out = d.get_completion_suggestions(&parse, 4, &vec![], &no_provider);
    assert_eq!(out.get_texts(), vec!["timer"]);
    assert!(d.is_typed_in_full(0, &chars("time"), 0, &vec![]));
    assert!(!d.is_typed_in_full(0, &chars("tim"), 0, &vec![]));
    // with exclusive literals they do not
    d.set_exclusive(true);
    assert!(d.is_exclusive());
    let out = d.get_completion_suggestions(&parse, 4, &vec![], &no_provider);
    assert!(out.is_empty());
    // a literal typed in part silences nothing
    let parse = d.parse("ti", &vec![]);
    let out = d.get_completion_suggestions(&parse, 2, &vec![], &no_provider);
    assert_eq!(out.get_texts(), vec!["tick", "time", "timer"]);
}
