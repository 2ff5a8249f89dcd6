//! Argument types: what an argument node parses its text with.
use vstd::prelude::*;
use crate::exceptions::{BuiltInExceptions, CommandSyntaxException, ExceptionView};
use crate::string_reader::{
    all_digits,
    decimal_value,
    int_value,
    lemma_scan_string_advances,
    lemma_scan_while_bounds,
    lemma_scan_while_is,
    scan_quoted,
    spec_is_digit,
    scan_boolean,
    scan_int,
    scan_string,
    scan_while,
    spec_is_allowed_in_unquoted_string,
    spec_is_allowed_number,
    StringReader,
    SYNTAX_DOUBLE_QUOTE,
    SYNTAX_ESCAPE,
};
use crate::context::{CommandContext, CommandContextView};
use crate::suggestion::{
    range_of,
    ranged,
    suggested,
    typed_of,
    Candidate,
    Suggestions,
    SuggestionsBuilder,
};
use crate::text::{copy_text, starts_alike, text_starts_alike, to_chars};

verus! {

/// A parsed value.
#[derive(Debug)]
pub enum ArgumentValue {
    Boolean(bool),
    Integer(i32),
    Text(Vec<char>),
}

/// A parsed value, as plain values.
pub enum ValueView {
    Boolean(bool),
    Integer(int),
    Text(Seq<char>),
}

impl View for ArgumentValue {
    type V = ValueView;

    open spec fn view(&self) -> ValueView {
        match self {
            ArgumentValue::Boolean(b) => ValueView::Boolean(*b),
            ArgumentValue::Integer(i) => ValueView::Integer(*i as int),
            ArgumentValue::Text(t) => ValueView::Text(t@),
        }
    }
}

impl ArgumentValue {
    /// A copy of this value.
    pub fn duplicate(&self) -> (out: Self)
        ensures
            out@ == self@,
    {
        match self {
            ArgumentValue::Boolean(b) => ArgumentValue::Boolean(*b),
            ArgumentValue::Integer(i) => ArgumentValue::Integer(*i),
            ArgumentValue::Text(t) => ArgumentValue::Text(copy_text(t)),
        }
    }

    /// Whether two values are the same.
    pub fn same(&self, other: &Self) -> (r: bool)
        ensures
            r == (self@ == other@),
    {
        match (self, other) {
            (ArgumentValue::Boolean(a), ArgumentValue::Boolean(b)) => *a == *b,
            (ArgumentValue::Integer(a), ArgumentValue::Integer(b)) => *a == *b,
            (ArgumentValue::Text(a), ArgumentValue::Text(b)) => crate::text::same_text(a, b),
            _ => false,
        }
    }
}

/// The character of a decimal digit.
pub open spec fn digit_char(d: int) -> char {
    (d + 48) as u8 as char
}

/// A natural number in decimal digits, without leading zeros.
pub open spec fn decimal_text(n: nat) -> Seq<char>
    decreases n,
{
    if n < 10 {
        seq![digit_char(n as int)]
    } else {
        decimal_text(n / 10).push(digit_char((n % 10) as int))
    }
}

/// A text with a backslash before each double quote and each backslash.
pub open spec fn escaped(text: Seq<char>) -> Seq<char>
    decreases text.len(),
{
    if text.len() == 0 {
        Seq::empty()
    } else if text[0] == SYNTAX_DOUBLE_QUOTE || text[0] == SYNTAX_ESCAPE {
        seq![SYNTAX_ESCAPE, text[0]] + escaped(text.drop_first())
    } else {
        seq![text[0]] + escaped(text.drop_first())
    }
}

/// How a value is written: a boolean as `true` or `false`, an integer in
/// decimal digits with a minus sign if it is negative, a text between
/// double quotes, escaped.
pub open spec fn rendered(value: ValueView) -> Seq<char> {
    match value {
        ValueView::Boolean(b) => if b {
            seq!['t', 'r', 'u', 'e']
        } else {
            seq!['f', 'a', 'l', 's', 'e']
        },
        ValueView::Integer(v) => if v < 0 {
            seq!['-'] + decimal_text((-v) as nat)
        } else {
            decimal_text(v as nat)
        },
        ValueView::Text(t) => seq![SYNTAX_DOUBLE_QUOTE] + escaped(t) + seq![SYNTAX_DOUBLE_QUOTE],
    }
}

fn push_decimal(n: u32, out: &mut Vec<char>)
    ensures
        final(out)@ == old(out)@ + decimal_text(n as nat),
    decreases n,
{
    if n >= 10 {
        push_decimal(n / 10, out);
    }
    let d: u8 = (n % 10) as u8;
    out.push((48 + d) as char);
}

impl ArgumentValue {
    /// Writes this value: see `rendered`. The boolean type, an integer type
    /// whose bounds hold the value, and the phrase type parse this form
    /// back; for the form that a given type parses back, see the `render`
    /// of the type.
    pub fn render(&self) -> (out: String)
        ensures
            out@ == rendered(self@),
    {
        let mut out: Vec<char> = Vec::new();
        match self {
            ArgumentValue::Boolean(b) => {
                if *b {
                    out.push('t');
                    out.push('r');
                    out.push('u');
                    out.push('e');
                } else {
                    out.push('f');
                    out.push('a');
                    out.push('l');
                    out.push('s');
                    out.push('e');
                }
                assert(out@ =~= rendered(self@));
            },
            ArgumentValue::Integer(v) => {
                if *v < 0 {
                    out.push('-');
                    let magnitude: u32 = (-(*v as i64)) as u32;
                    push_decimal(magnitude, &mut out);
                } else {
                    push_decimal(*v as u32, &mut out);
                }
                assert(out@ =~= rendered(self@));
            },
            ArgumentValue::Text(t) => {
                out.push(SYNTAX_DOUBLE_QUOTE);
                let ghost head = out@;
                let mut k: usize = 0;
                assert(t@.subrange(0, t.len() as int) =~= t@);
                while k < t.len()
                    invariant
                        k <= t.len(),
                        head == seq![SYNTAX_DOUBLE_QUOTE],
                        out@ + escaped(t@.subrange(k as int, t.len() as int)) == head + escaped(t@),
                    decreases t.len() - k,
                {
                    let c = t[k];
                    let ghost rest = t@.subrange(k as int, t.len() as int);
                    let ghost before = out@;
                    assert(rest[0] == c);
                    assert(rest.drop_first() == t@.subrange(k + 1, t.len() as int));
                    if c == SYNTAX_DOUBLE_QUOTE || c == SYNTAX_ESCAPE {
                        out.push(SYNTAX_ESCAPE);
                    }
                    out.push(c);
                    assert(out@ + escaped(rest.drop_first()) =~= before + escaped(rest));
                    k = k + 1;
                }
                assert(escaped(t@.subrange(k as int, t.len() as int)) =~= Seq::<char>::empty());
                assert(out@ =~= head + escaped(t@));
                out.push(SYNTAX_DOUBLE_QUOTE);
                assert(out@ =~= rendered(self@));
            },
        }
        crate::text::to_text(&out)
    }
}

/// Every character of `text` is allowed in an unquoted string.
pub open spec fn unquoted(text: Seq<char>) -> bool {
    forall|i: int| 0 <= i < text.len() ==> spec_is_allowed_in_unquoted_string(#[trigger] text[i])
}

/// Whether every character of `text` is allowed in an unquoted string.
pub fn is_unquoted(text: &Vec<char>) -> (r: bool)
    ensures
        r == unquoted(text@),
{
    let mut i: usize = 0;
    while i < text.len()
        invariant
            i <= text.len(),
            forall|k: int| 0 <= k < i ==> spec_is_allowed_in_unquoted_string(#[trigger] text@[k]),
        decreases text.len() - i,
    {
        if !crate::string_reader::is_allowed_in_unquoted_string(text[i]) {
            return false;
        }
        i = i + 1;
    }
    true
}

/// The decimal digits of a number are digits, at least one, and denote
/// the number.
pub proof fn lemma_decimal_text(n: nat)
    ensures
        decimal_text(n).len() >= 1,
        all_digits(decimal_text(n)),
        decimal_value(decimal_text(n)) == n,
    decreases n,
{
    if n < 10 {
        let s = decimal_text(n);
        assert(s.drop_last() =~= Seq::<char>::empty());
        assert(decimal_value(s.drop_last()) == 0);
        assert(s.last() == digit_char(n as int));
    } else {
        lemma_decimal_text(n / 10);
        let head = decimal_text(n / 10);
        let s = decimal_text(n);
        assert(s.drop_last() =~= head);
        assert(s.last() == digit_char((n % 10) as int));
        assert forall|i: int| 0 <= i < s.len() implies spec_is_digit(#[trigger] s[i]) by {
            if i < head.len() {
                assert(s[i] == head[i]);
            }
        }
    }
}

/// Reading a quoted text back: after `before`, the escaped form of `rest`
/// and a closing quote give what was collected so far and `rest`.
pub proof fn lemma_escaped_reads_back(before: Seq<char>, rest: Seq<char>, acc: Seq<char>)
    ensures
        scan_quoted(
            before + escaped(rest) + seq![SYNTAX_DOUBLE_QUOTE],
            before.len() as int,
            SYNTAX_DOUBLE_QUOTE,
            acc,
        ) == Ok::<(Seq<char>, int), (BuiltInExceptions, int)>(
            (acc + rest, (before + escaped(rest) + seq![SYNTAX_DOUBLE_QUOTE]).len() as int),
        ),
    decreases rest.len(),
{
    let s = before + escaped(rest) + seq![SYNTAX_DOUBLE_QUOTE];
    let at = before.len() as int;
    if rest.len() == 0 {
        assert(s[at] == SYNTAX_DOUBLE_QUOTE);
        assert(acc + rest =~= acc);
    } else {
        let c = rest[0];
        let tail = rest.drop_first();
        if c == SYNTAX_DOUBLE_QUOTE || c == SYNTAX_ESCAPE {
            let next = before + seq![SYNTAX_ESCAPE, c];
            assert(s =~= next + escaped(tail) + seq![SYNTAX_DOUBLE_QUOTE]);
            assert(s[at] == SYNTAX_ESCAPE);
            assert(s[at + 1] == c);
            lemma_escaped_reads_back(next, tail, acc.push(c));
            assert(acc.push(c) + tail =~= acc + rest);
        } else {
            let next = before + seq![c];
            assert(s =~= next + escaped(tail) + seq![SYNTAX_DOUBLE_QUOTE]);
            assert(s[at] == c);
            lemma_escaped_reads_back(next, tail, acc.push(c));
            assert(acc.push(c) + tail =~= acc + rest);
        }
    }
}

/// The outcome of parsing at a cursor: the value and the offset just past
/// the text consumed, or the kind of failure and the offset it occurred at.
pub type ParseOutcome = Result<(ValueView, int), (BuiltInExceptions, int)>;

/// What an argument node needs of its type.
///
/// `parse` is a function of the input and the cursor alone, named by
/// `spec_parse`. A successful parse never moves the cursor backwards, and a
/// failed one leaves it at the offset that the failure carries.
pub trait ArgumentType {
    /// What `parse` gives on `input` with the cursor at `cursor`.
    spec fn spec_parse(&self, input: Seq<char>, cursor: int) -> ParseOutcome;

    /// A successful parse ends at or after the offset it started at, within
    /// the input.
    proof fn lemma_parse_advances(&self, input: Seq<char>, cursor: int)
        requires
            0 <= cursor <= input.len(),
        ensures
            self.spec_parse(input, cursor) matches Ok((_, end)) ==> cursor <= end <= input.len(),
    ;

    fn parse(&self, reader: &mut StringReader) -> (r: Result<
        ArgumentValue,
        CommandSyntaxException,
    >)
        ensures
            final(reader)@.input == old(reader)@.input,
            match self.spec_parse(old(reader)@.input, old(reader)@.cursor) {
                Ok((value, end)) => r matches Ok(out) && out@ == value && final(reader)@.cursor
                    == end,
                Err((kind, at)) => r matches Err(e) && final(reader)@.cursor == at && e@ == (
                ExceptionView { kind, input: old(reader)@.input, cursor: at }),
            },
    ;

    /// How `value` is written for this type; `None` for a value that the
    /// type cannot write.
    spec fn spec_render(&self, value: ValueView) -> Option<Seq<char>>;

    /// Parsing what the type wrote for a value gives the value back and
    /// takes all of what was written, where the input ends with it.
    proof fn lemma_round_trip(&self, value: ValueView, before: Seq<char>)
        requires
            self.spec_render(value) is Some,
        ensures
            self.spec_parse(before + self.spec_render(value)->0, before.len() as int) == Ok::<
                (ValueView, int),
                (BuiltInExceptions, int),
            >((value, (before + self.spec_render(value)->0).len() as int)),
    ;

    /// Writes `value` so that this type parses it back, where it can.
    fn render(&self, value: &ArgumentValue) -> (out: Option<String>)
        ensures
            match self.spec_render(value@) {
                Some(text) => out matches Some(written) && written@ == text,
                None => out is None,
            },
    ;

    /// What the type suggests for `typed`, the start of a token, in the
    /// context `context`; or the kind of failure, where it cannot say.
    spec fn spec_candidates(&self, context: CommandContextView, typed: Seq<char>) -> Result<
        Seq<Candidate>,
        BuiltInExceptions,
    >;

    /// The sample inputs of this type.
    spec fn spec_examples(&self) -> Seq<Seq<char>>;

    /// The short name of this type.
    spec fn spec_describe(&self) -> Seq<char>;

    /// Completions of what has been typed: what the type suggests for the
    /// builder's text is added to the builder, and all that the builder
    /// then holds is returned, put in order. Where the type fails, its
    /// failure is returned and the builder is as it was.
    fn list_suggestions(&self, context: &CommandContext, builder: &mut SuggestionsBuilder) -> (r:
        Result<Suggestions, CommandSyntaxException>)
        ensures
            suggested(
                self.spec_candidates(context@, typed_of(old(builder)@)),
                old(builder)@,
                final(builder)@,
                r,
            ),
    ;

    /// Sample inputs that this type accepts.
    fn get_examples(&self) -> (out: Vec<String>)
        ensures
            texts_of(out@) == self.spec_examples(),
    ;

    /// A short name of this type, for display.
    fn describe(&self) -> (out: String)
        ensures
            out@ == self.spec_describe(),
    ;
}

/// The argument types that come with the library.
#[derive(Clone, Copy, Debug, PartialEq, Eq, Structural)]
pub enum BuiltInArgument {
    /// `true` or `false`.
    Boolean,
    /// A 32-bit integer between `minimum` and `maximum`, both included.
    Integer { minimum: i32, maximum: i32 },
    /// One unquoted word.
    Word,
    /// One unquoted word or a quoted phrase.
    Phrase,
    /// Everything up to the end of the input.
    Greedy,
}

impl BuiltInArgument {
    /// An integer with no bounds but those of its 32 bits.
    pub fn integer() -> (t: Self)
        ensures
            t == (BuiltInArgument::Integer { minimum: i32::MIN, maximum: i32::MAX }),
    {
        BuiltInArgument::Integer { minimum: i32::MIN, maximum: i32::MAX }
    }

    /// What each built-in type parses.
    pub open spec fn outcome(self, input: Seq<char>, cursor: int) -> ParseOutcome {
        match self {
            BuiltInArgument::Boolean => match scan_boolean(input, cursor) {
                Ok((b, end)) => Ok((ValueView::Boolean(b), end)),
                Err(e) => Err(e),
            },
            BuiltInArgument::Integer { minimum, maximum } => match scan_int(input, cursor) {
                Ok((v, end)) => if v < minimum {
                    Err((BuiltInExceptions::IntegerTooLow, cursor))
                } else if v > maximum {
                    Err((BuiltInExceptions::IntegerTooHigh, cursor))
                } else {
                    Ok((ValueView::Integer(v), end))
                },
                Err(e) => Err(e),
            },
            BuiltInArgument::Word => {
                let end = scan_while(input, cursor, |c: char| spec_is_allowed_in_unquoted_string(c));
                Ok((ValueView::Text(input.subrange(cursor, end)), end))
            },
            BuiltInArgument::Phrase => match scan_string(input, cursor) {
                Ok((text, end)) => Ok((ValueView::Text(text), end)),
                Err(e) => Err(e),
            },
            BuiltInArgument::Greedy => Ok(
                (ValueView::Text(input.subrange(cursor, input.len() as int)), input.len() as int),
            ),
        }
    }

    /// Whether the type has `value` among the values it can write and
    /// parse back: a boolean for the boolean type, an integer within the
    /// bounds for an integer type, a text of characters allowed in an
    /// unquoted string for a word, any text for a phrase and for the rest
    /// of the input.
    pub open spec fn holds(self, value: ValueView) -> bool {
        match (self, value) {
            (BuiltInArgument::Boolean, ValueView::Boolean(_)) => true,
            (BuiltInArgument::Integer { minimum, maximum }, ValueView::Integer(v)) => minimum <= v
                <= maximum,
            (BuiltInArgument::Word, ValueView::Text(t)) => unquoted(t),
            (BuiltInArgument::Phrase, ValueView::Text(_)) => true,
            (BuiltInArgument::Greedy, ValueView::Text(_)) => true,
            _ => false,
        }
    }

    /// How the type writes a value it holds: a text as it is for a word
    /// and for the rest of the input; anything else as `rendered` says.
    pub open spec fn written(self, value: ValueView) -> Option<Seq<char>> {
        if self.holds(value) {
            Some(
                match (self, value) {
                    (BuiltInArgument::Word, ValueView::Text(t)) => t,
                    (BuiltInArgument::Greedy, ValueView::Text(t)) => t,
                    _ => rendered(value),
                },
            )
        } else {
            None
        }
    }

    /// The sample inputs of each built-in type.
    pub open spec fn examples(self) -> Seq<Seq<char>> {
        match self {
            BuiltInArgument::Boolean => seq!["true"@, "false"@],
            BuiltInArgument::Integer { .. } => seq!["0"@, "123"@, "-123"@],
            BuiltInArgument::Word => seq!["word"@, "words_with_underscores"@],
            BuiltInArgument::Phrase => seq!["\"quoted phrase\""@, "word"@, "\"\""@],
            BuiltInArgument::Greedy => seq!["word"@, "words with spaces"@, "\"and symbols\""@],
        }
    }

    /// The display name of each built-in type.
    pub open spec fn label(self) -> Seq<char> {
        match self {
            BuiltInArgument::Boolean => "bool"@,
            BuiltInArgument::Integer { .. } => "integer"@,
            BuiltInArgument::Word => "word"@,
            BuiltInArgument::Phrase => "phrase"@,
            BuiltInArgument::Greedy => "greedy"@,
        }
    }
}

/// The views of a list of strings.
pub open spec fn texts_of(v: Seq<String>) -> Seq<Seq<char>> {
    v.map_values(|s: String| s@)
}

impl ArgumentType for BuiltInArgument {
    open spec fn spec_parse(&self, input: Seq<char>, cursor: int) -> ParseOutcome {
        self.outcome(input, cursor)
    }

    proof fn lemma_parse_advances(&self, input: Seq<char>, cursor: int) {
        lemma_scan_string_advances(input, cursor);
        lemma_scan_while_bounds(input, cursor, |c: char| spec_is_allowed_in_unquoted_string(c));
        lemma_scan_while_bounds(input, cursor, |c: char| spec_is_allowed_number(c));
    }

    fn parse(&self, reader: &mut StringReader) -> (r: Result<
        ArgumentValue,
        CommandSyntaxException,
    >) {
        match self {
            BuiltInArgument::Boolean => {
                let b = reader.read_boolean()?;
                Ok(ArgumentValue::Boolean(b))
            },
            BuiltInArgument::Integer { minimum, maximum } => {
                let start: usize = reader.get_cursor();
                let v: i32 = reader.read_int()?;
                if v < *minimum {
                    reader.set_cursor(start);
                    Err(
                        CommandSyntaxException::new(
                            BuiltInExceptions::IntegerTooLow,
                            reader.chars(),
                            start,
                        ),
                    )
                } else if v > *maximum {
                    reader.set_cursor(start);
                    Err(
                        CommandSyntaxException::new(
                            BuiltInExceptions::IntegerTooHigh,
                            reader.chars(),
                            start,
                        ),
                    )
                } else {
                    Ok(ArgumentValue::Integer(v))
                }
            },
            BuiltInArgument::Word => {
                let text = reader.read_unquoted_string();
                Ok(ArgumentValue::Text(text))
            },
            BuiltInArgument::Phrase => {
                let text = reader.read_string()?;
                Ok(ArgumentValue::Text(text))
            },
            BuiltInArgument::Greedy => {
                proof {
                    use_type_invariant(&*reader);
                }
                let start: usize = reader.get_cursor();
                let end: usize = reader.get_total_length();
                let text = reader.slice(start, end);
                reader.set_cursor(end);
                Ok(ArgumentValue::Text(text))
            },
        }
    }

    open spec fn spec_render(&self, value: ValueView) -> Option<Seq<char>> {
        self.written(value)
    }

    proof fn lemma_round_trip(&self, value: ValueView, before: Seq<char>) {
        let text = self.written(value)->0;
        let s = before + text;
        let at = before.len() as int;
        assert(s.subrange(at, s.len() as int) =~= text);
        match (*self, value) {
            (BuiltInArgument::Boolean, ValueView::Boolean(b)) => {
                assert forall|i: int| at <= i < s.len() implies spec_is_allowed_in_unquoted_string(
                    #[trigger] s[i],
                ) by {
                    assert(s[i] == text[i - at]);
                }
                lemma_scan_while_is(
                    s,
                    at,
                    |c: char| spec_is_allowed_in_unquoted_string(c),
                    s.len() as int,
                );
                assert(s[at] == text[0]);
                assert(seq!['t', 'r', 'u', 'e'].len() != seq!['f', 'a', 'l', 's', 'e'].len());
            },
            (BuiltInArgument::Integer { .. }, ValueView::Integer(v)) => {
                let n = (if v < 0 { -v } else { v }) as nat;
                lemma_decimal_text(n);
                let digits = decimal_text(n);
                assert forall|i: int| at <= i < s.len() implies spec_is_allowed_number(
                    #[trigger] s[i],
                ) by {
                    assert(s[i] == text[i - at]);
                    if v < 0 {
                        if i - at > 0 {
                            assert(text[i - at] == digits[i - at - 1]);
                        }
                    } else {
                        assert(text[i - at] == digits[i - at]);
                    }
                }
                lemma_scan_while_is(s, at, |c: char| spec_is_allowed_number(c), s.len() as int);
                let token = s.subrange(at, s.len() as int);
                if v < 0 {
                    assert(token[0] == '-');
                    assert(token.subrange(1, token.len() as int) =~= digits);
                } else {
                    assert(spec_is_digit(digits[0]));
                    assert(token[0] != '-');
                }
                assert(int_value(token) == Some(v));
            },
            (BuiltInArgument::Word, ValueView::Text(t)) => {
                assert forall|i: int| at <= i < s.len() implies spec_is_allowed_in_unquoted_string(
                    #[trigger] s[i],
                ) by {
                    assert(s[i] == t[i - at]);
                }
                lemma_scan_while_is(
                    s,
                    at,
                    |c: char| spec_is_allowed_in_unquoted_string(c),
                    s.len() as int,
                );
            },
            (BuiltInArgument::Phrase, ValueView::Text(t)) => {
                let opened = before + seq![SYNTAX_DOUBLE_QUOTE];
                lemma_escaped_reads_back(opened, t, Seq::empty());
                assert(s =~= opened + escaped(t) + seq![SYNTAX_DOUBLE_QUOTE]);
                assert(s[at] == SYNTAX_DOUBLE_QUOTE);
                assert(Seq::<char>::empty() + t =~= t);
            },
            (BuiltInArgument::Greedy, ValueView::Text(t)) => {},
            _ => {},
        }
    }

    fn render(&self, value: &ArgumentValue) -> (out: Option<String>) {
        match (self, value) {
            (BuiltInArgument::Boolean, ArgumentValue::Boolean(_)) => Some(value.render()),
            (BuiltInArgument::Integer { minimum, maximum }, ArgumentValue::Integer(v)) => {
                if *minimum <= *v && *v <= *maximum {
                    Some(value.render())
                } else {
                    None
                }
            },
            (BuiltInArgument::Word, ArgumentValue::Text(t)) => {
                if is_unquoted(t) {
                    Some(crate::text::to_text(t))
                } else {
                    None
                }
            },
            (BuiltInArgument::Phrase, ArgumentValue::Text(_)) => Some(value.render()),
            (BuiltInArgument::Greedy, ArgumentValue::Text(t)) => Some(crate::text::to_text(t)),
            _ => None,
        }
    }

    /// The built-in types offer no completions of their own.
    open spec fn spec_candidates(&self, context: CommandContextView, typed: Seq<char>) -> Result<
        Seq<Candidate>,
        BuiltInExceptions,
    > {
        Ok(Seq::empty())
    }

    open spec fn spec_examples(&self) -> Seq<Seq<char>> {
        self.examples()
    }

    open spec fn spec_describe(&self) -> Seq<char> {
        self.label()
    }

    fn list_suggestions(&self, context: &CommandContext, builder: &mut SuggestionsBuilder) -> (r:
        Result<Suggestions, CommandSyntaxException>)
        ensures
            *final(builder) == *old(builder),
    {
        assert(builder@.pending + ranged(Seq::<Candidate>::empty(), range_of(builder@))
            =~= builder@.pending);
        Ok(builder.build())
    }

    fn get_examples(&self) -> (out: Vec<String>) {
        let mut out: Vec<String> = Vec::new();
        match self {
            BuiltInArgument::Boolean => {
                out.push("true".to_owned());
                out.push("false".to_owned());
            },
            BuiltInArgument::Integer { .. } => {
                out.push("0".to_owned());
                out.push("123".to_owned());
                out.push("-123".to_owned());
            },
            BuiltInArgument::Word => {
                out.push("word".to_owned());
                out.push("words_with_underscores".to_owned());
            },
            BuiltInArgument::Phrase => {
                out.push("\"quoted phrase\"".to_owned());
                out.push("word".to_owned());
                out.push("\"\"".to_owned());
            },
            BuiltInArgument::Greedy => {
                out.push("word".to_owned());
                out.push("words with spaces".to_owned());
                out.push("\"and symbols\"".to_owned());
            },
        }
        assert(texts_of(out@) =~= self.spec_examples());
        out
    }

    fn describe(&self) -> (out: String) {
        match self {
            BuiltInArgument::Boolean => "bool".to_owned(),
            BuiltInArgument::Integer { .. } => "integer".to_owned(),
            BuiltInArgument::Word => "word".to_owned(),
            BuiltInArgument::Phrase => "phrase".to_owned(),
            BuiltInArgument::Greedy => "greedy".to_owned(),
        }
    }
}

/// Those of `words` from the `k`-th on that `typed` starts, without
/// regard to case, and that are not `typed` itself.
pub open spec fn word_candidates(words: Seq<&str>, typed: Seq<char>, k: int) -> Seq<Candidate>
    decreases words.len() - k,
{
    if k < 0 || k >= words.len() {
        Seq::empty()
    } else {
        (if starts_alike(words[k]@, typed) && words[k]@ != typed {
            seq![(words[k]@, None::<Seq<char>>)]
        } else {
            Seq::empty()
        }) + word_candidates(words, typed, k + 1)
    }
}

/// The texts of a list of words.
pub open spec fn words_of(words: Seq<&str>) -> Seq<Seq<char>> {
    Seq::new(words.len(), |i: int| words[i]@)
}

/// One unquoted word, of an open set: the words that the type knows are
/// its examples and what it completes to, and any other word parses too.
#[derive(Clone, Copy, Debug)]
pub struct WordArgument<'a> {
    /// The name of the type, for display.
    pub label: &'a str,
    /// The words that the type knows.
    pub words: &'a [&'a str],
}

impl<'a> WordArgument<'a> {
    pub fn new(label: &'a str, words: &'a [&'a str]) -> (t: Self)
        ensures
            t.label == label,
            t.words == words,
    {
        WordArgument { label, words }
    }
}

impl<'a> ArgumentType for WordArgument<'a> {
    open spec fn spec_parse(&self, input: Seq<char>, cursor: int) -> ParseOutcome {
        BuiltInArgument::Word.outcome(input, cursor)
    }

    proof fn lemma_parse_advances(&self, input: Seq<char>, cursor: int) {
        lemma_scan_while_bounds(input, cursor, |c: char| spec_is_allowed_in_unquoted_string(c));
    }

    fn parse(&self, reader: &mut StringReader) -> (r: Result<
        ArgumentValue,
        CommandSyntaxException,
    >) {
        let text = reader.read_unquoted_string();
        Ok(ArgumentValue::Text(text))
    }

    open spec fn spec_render(&self, value: ValueView) -> Option<Seq<char>> {
        BuiltInArgument::Word.written(value)
    }

    proof fn lemma_round_trip(&self, value: ValueView, before: Seq<char>) {
        BuiltInArgument::Word.lemma_round_trip(value, before);
    }

    fn render(&self, value: &ArgumentValue) -> (out: Option<String>) {
        BuiltInArgument::Word.render(value)
    }

    open spec fn spec_candidates(&self, context: CommandContextView, typed: Seq<char>) -> Result<
        Seq<Candidate>,
        BuiltInExceptions,
    > {
        Ok(word_candidates(self.words@, typed, 0))
    }

    open spec fn spec_examples(&self) -> Seq<Seq<char>> {
        words_of(self.words@)
    }

    open spec fn spec_describe(&self) -> Seq<char> {
        self.label@
    }

    /// Suggests the known words that what has been typed starts.
    fn list_suggestions(&self, context: &CommandContext, builder: &mut SuggestionsBuilder) -> (r:
        Result<Suggestions, CommandSyntaxException>)
    {
        let typed = builder.remaining();
        let ghost first = builder@;
        let ghost range = range_of(first);
        assert(ranged(Seq::<Candidate>::empty(), range) =~= Seq::empty());
        let mut k: usize = 0;
        while k < self.words.len()
            invariant
                k <= self.words.len(),
                first == old(builder)@,
                range == range_of(first),
                builder@.input == first.input,
                builder@.start == first.start,
                typed@ == typed_of(first),
                builder@.pending + ranged(word_candidates(self.words@, typed@, k as int), range)
                    == first.pending + ranged(word_candidates(self.words@, typed@, 0), range),
            decreases self.words.len() - k,
        {
            let word: &str = self.words[k];
            let ghost before = builder@.pending;
            let ghost rest = word_candidates(self.words@, typed@, k + 1);
            if text_starts_alike(&to_chars(word), &typed) {
                builder.suggest(word);
            }
            proof {
                let here = if starts_alike(word@, typed@) && word@ != typed@ {
                    seq![(word@, None::<Seq<char>>)]
                } else {
                    Seq::<Candidate>::empty()
                };
                assert(word_candidates(self.words@, typed@, k as int) == here + rest);
                assert(ranged(here + rest, range) =~= ranged(here, range) + ranged(rest, range));
                assert(builder@.pending =~= before + ranged(here, range));
                assert(builder@.pending + ranged(rest, range) =~= before + ranged(here + rest, range));
            }
            k = k + 1;
        }
        assert(ranged(word_candidates(self.words@, typed@, k as int), range) =~= Seq::empty());
        assert(builder@.pending =~= first.pending + ranged(
            word_candidates(self.words@, typed@, 0),
            range,
        ));
        Ok(builder.build())
    }

    fn get_examples(&self) -> (out: Vec<String>) {
        let mut out: Vec<String> = Vec::new();
        let mut k: usize = 0;
        while k < self.words.len()
            invariant
                k <= self.words.len(),
                out@.len() == k,
                forall|i: int| 0 <= i < k ==> (#[trigger] out@[i])@ == self.words@[i]@,
            decreases self.words.len() - k,
        {
            out.push(self.words[k].to_owned());
            k = k + 1;
        }
        assert(texts_of(out@) =~= words_of(self.words@));
        out
    }

    fn describe(&self) -> (out: String) {
        self.label.to_owned()
    }
}

} // verus!
