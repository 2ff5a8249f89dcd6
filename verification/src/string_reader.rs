//! A cursor over an input text, with the primitive reads that parsing is
//! built from.
//!
//! Every read either succeeds and leaves the cursor just past what it
//! consumed, or fails with a [`CommandSyntaxException`] that carries the
//! input and the cursor offset of the failure. Nothing rewinds on its own
//! beyond what each function states: a caller that wants to try something
//! else saves the cursor first and restores it.
use vstd::prelude::*;
use crate::exceptions::{BuiltInExceptions, CommandSyntaxException, ExceptionView};
use crate::text::{copy_text, to_chars, to_text};

verus! {

pub const SYNTAX_ESCAPE: char = '\\';

pub const SYNTAX_DOUBLE_QUOTE: char = '"';

pub const SYNTAX_SINGLE_QUOTE: char = '\'';

pub open spec fn spec_is_digit(c: char) -> bool {
    '0' <= c && c <= '9'
}

pub open spec fn spec_is_allowed_number(c: char) -> bool {
    spec_is_digit(c) || c == '.' || c == '-'
}

pub open spec fn spec_is_quoted_string_start(c: char) -> bool {
    c == SYNTAX_DOUBLE_QUOTE || c == SYNTAX_SINGLE_QUOTE
}

pub open spec fn spec_is_allowed_in_unquoted_string(c: char) -> bool {
    spec_is_digit(c) || ('A' <= c && c <= 'Z') || ('a' <= c && c <= 'z') || c == '_' || c == '-'
        || c == '.' || c == '+'
}

pub open spec fn spec_is_whitespace(c: char) -> bool {
    c == ' ' || c == '\t' || c == '\n' || c == '\r'
}

/// The first offset at or after `from` whose character does not satisfy
/// `pred`, or the length of `s` if there is none.
pub open spec fn scan_while(s: Seq<char>, from: int, pred: spec_fn(char) -> bool) -> int
    decreases s.len() - from,
{
    if 0 <= from < s.len() && pred(s[from]) {
        scan_while(s, from + 1, pred)
    } else {
        from
    }
}

/// `scan_while` stops at the one offset that ends a run of matching
/// characters starting at `from`.
pub proof fn lemma_scan_while_is(s: Seq<char>, from: int, pred: spec_fn(char) -> bool, end: int)
    requires
        0 <= from <= end <= s.len(),
        forall|i: int| from <= i < end ==> pred(#[trigger] s[i]),
        end == s.len() || !pred(s[end]),
    ensures
        scan_while(s, from, pred) == end,
    decreases end - from,
{
    if from < end {
        lemma_scan_while_is(s, from + 1, pred, end);
    }
}

/// What `scan_while` returns lies between `from` and the end of `s`, every
/// character it passed satisfies `pred`, and the one it stopped at does not.
pub proof fn lemma_scan_while_bounds(s: Seq<char>, from: int, pred: spec_fn(char) -> bool)
    requires
        0 <= from <= s.len(),
    ensures
        from <= scan_while(s, from, pred) <= s.len(),
        forall|i: int| from <= i < scan_while(s, from, pred) ==> pred(#[trigger] s[i]),
        scan_while(s, from, pred) == s.len() || !pred(s[scan_while(s, from, pred)]),
    decreases s.len() - from,
{
    if from < s.len() && pred(s[from]) {
        lemma_scan_while_bounds(s, from + 1, pred);
    }
}

pub open spec fn digit_value(c: char) -> int {
    c as u32 as int - '0' as u32 as int
}

/// The number that a run of decimal digits denotes.
pub open spec fn decimal_value(s: Seq<char>) -> int
    decreases s.len(),
{
    if s.len() == 0 {
        0
    } else {
        decimal_value(s.drop_last()) * 10 + digit_value(s.last())
    }
}

pub open spec fn all_digits(s: Seq<char>) -> bool {
    forall|i: int| 0 <= i < s.len() ==> spec_is_digit(#[trigger] s[i])
}

/// The 32-bit integer that `token` denotes: an optional minus sign and then
/// one or more decimal digits, within range. `None` for any other token.
pub open spec fn int_value(token: Seq<char>) -> Option<int> {
    let negative = token.len() > 0 && token[0] == '-';
    let digits = if negative { token.subrange(1, token.len() as int) } else { token };
    let value = if negative { -decimal_value(digits) } else { decimal_value(digits) };
    if digits.len() > 0 && all_digits(digits) && i32::MIN <= value <= i32::MAX {
        Some(value)
    } else {
        None
    }
}

/// What reading up to a closing `terminator` gives, starting at `at` with
/// `acc` already collected: the collected text and the offset just past the
/// terminator, or the kind of failure and the offset it occurred at. A
/// backslash escapes the terminator and itself, and nothing else.
pub open spec fn scan_quoted(s: Seq<char>, at: int, terminator: char, acc: Seq<char>) -> Result<
    (Seq<char>, int),
    (BuiltInExceptions, int),
>
    decreases s.len() - at,
{
    if at < 0 || at >= s.len() {
        Err((BuiltInExceptions::ReaderExpectedEndOfQuote, s.len() as int))
    } else if s[at] == SYNTAX_ESCAPE {
        if at + 1 >= s.len() {
            Err((BuiltInExceptions::ReaderExpectedEndOfQuote, s.len() as int))
        } else if s[at + 1] == terminator || s[at + 1] == SYNTAX_ESCAPE {
            scan_quoted(s, at + 2, terminator, acc.push(s[at + 1]))
        } else {
            Err((BuiltInExceptions::ReaderInvalidEscape, at + 1))
        }
    } else if s[at] == terminator {
        Ok((acc, at + 1))
    } else {
        scan_quoted(s, at + 1, terminator, acc.push(s[at]))
    }
}

/// What reading a string gives at `at`: empty at the end of the input, the
/// quoted text where a quote starts, else the run of characters allowed in
/// an unquoted string.
pub open spec fn scan_string(s: Seq<char>, at: int) -> Result<
    (Seq<char>, int),
    (BuiltInExceptions, int),
> {
    if at >= s.len() {
        Ok((Seq::<char>::empty(), at))
    } else if spec_is_quoted_string_start(s[at]) {
        scan_quoted(s, at + 1, s[at], Seq::<char>::empty())
    } else {
        let end = scan_while(s, at, |c: char| spec_is_allowed_in_unquoted_string(c));
        Ok((s.subrange(at, end), end))
    }
}

/// What reading an integer gives at `at`: the value that the run of digits,
/// dots and minus signs there denotes and the offset just past it; a failure
/// at `at` when the run is empty or denotes no 32-bit integer.
pub open spec fn scan_int(s: Seq<char>, at: int) -> Result<(int, int), (BuiltInExceptions, int)> {
    let end = scan_while(s, at, |c: char| spec_is_allowed_number(c));
    let token = s.subrange(at, end);
    match int_value(token) {
        Some(v) => Ok((v, end)),
        None => if token.len() == 0 {
            Err((BuiltInExceptions::ReaderExpectedInt, at))
        } else {
            Err((BuiltInExceptions::ReaderInvalidInt, at))
        },
    }
}

/// What reading a boolean gives at `at`: the string there must be `true` or
/// `false`. An empty string fails where it ended, any other at `at`.
pub open spec fn scan_boolean(s: Seq<char>, at: int) -> Result<
    (bool, int),
    (BuiltInExceptions, int),
> {
    match scan_string(s, at) {
        Ok((text, end)) => if text == seq!['t', 'r', 'u', 'e'] {
            Ok((true, end))
        } else if text == seq!['f', 'a', 'l', 's', 'e'] {
            Ok((false, end))
        } else if text.len() == 0 {
            Err((BuiltInExceptions::ReaderExpectedBool, end))
        } else {
            Err((BuiltInExceptions::ReaderInvalidBool, at))
        },
        Err(e) => Err(e),
    }
}

/// A quoted read that succeeds ends past where it started, within the input.
pub proof fn lemma_scan_quoted_advances(s: Seq<char>, at: int, terminator: char, acc: Seq<char>)
    requires
        0 <= at,
    ensures
        scan_quoted(s, at, terminator, acc) matches Ok((_, end)) ==> at < end <= s.len(),
    decreases s.len() - at,
{
    if at >= s.len() {
    } else if s[at] == SYNTAX_ESCAPE {
        if at + 1 < s.len() && (s[at + 1] == terminator || s[at + 1] == SYNTAX_ESCAPE) {
            lemma_scan_quoted_advances(s, at + 2, terminator, acc.push(s[at + 1]));
        }
    } else if s[at] != terminator {
        lemma_scan_quoted_advances(s, at + 1, terminator, acc.push(s[at]));
    }
}

/// A string read that succeeds ends at or past where it started, within the
/// input.
pub proof fn lemma_scan_string_advances(s: Seq<char>, at: int)
    requires
        0 <= at <= s.len(),
    ensures
        scan_string(s, at) matches Ok((_, end)) ==> at <= end <= s.len(),
{
    if at < s.len() {
        if spec_is_quoted_string_start(s[at]) {
            lemma_scan_quoted_advances(s, at + 1, s[at], Seq::<char>::empty());
        } else {
            lemma_scan_while_bounds(s, at, |c: char| spec_is_allowed_in_unquoted_string(c));
        }
    }
}

pub fn is_allowed_number(c: char) -> (r: bool)
    ensures
        r == spec_is_allowed_number(c),
{
    (c >= '0' && c <= '9') || c == '.' || c == '-'
}

pub fn is_quoted_string_start(c: char) -> (r: bool)
    ensures
        r == spec_is_quoted_string_start(c),
{
    c == SYNTAX_DOUBLE_QUOTE || c == SYNTAX_SINGLE_QUOTE
}

pub fn is_allowed_in_unquoted_string(c: char) -> (r: bool)
    ensures
        r == spec_is_allowed_in_unquoted_string(c),
{
    (c >= '0' && c <= '9') || (c >= 'A' && c <= 'Z') || (c >= 'a' && c <= 'z') || c == '_' || c
        == '-' || c == '.' || c == '+'
}

pub fn is_whitespace(c: char) -> (r: bool)
    ensures
        r == spec_is_whitespace(c),
{
    c == ' ' || c == '\t' || c == '\n' || c == '\r'
}

/// The input and the cursor of a reader, as plain values.
pub struct ReaderView {
    pub input: Seq<char>,
    pub cursor: int,
}

#[derive(Debug)]
pub struct StringReader {
    input: Vec<char>,
    cursor: usize,
}

impl View for StringReader {
    type V = ReaderView;

    closed spec fn view(&self) -> ReaderView {
        ReaderView { input: self.input@, cursor: self.cursor as int }
    }
}

impl StringReader {
    /// The cursor lies within the input or just past its end. This holds
    /// of every reader.
    #[verifier::type_invariant]
    pub open spec fn wf(&self) -> bool {
        0 <= self@.cursor <= self@.input.len()
    }

    /// What is left to read.
    pub open spec fn spec_remaining(&self) -> Seq<char> {
        self@.input.subrange(self@.cursor, self@.input.len() as int)
    }

    /// A reader at the start of `input`.
    pub fn new(input: &str) -> (r: Self)
        ensures
            r.wf(),
            r@.input == input@,
            r@.cursor == 0,
    {
        StringReader { input: to_chars(input), cursor: 0 }
    }

    /// A reader at the start of `input`.
    pub fn from_chars(input: Vec<char>) -> (r: Self)
        ensures
            r.wf(),
            r@.input == input@,
            r@.cursor == 0,
    {
        StringReader { input, cursor: 0 }
    }

    /// A reader over a copy of the same input, at the same cursor.
    pub fn duplicate(&self) -> (r: Self)
        ensures
            r@ == self@,
    {
        proof {
            use_type_invariant(&*self);
        }
        StringReader { input: copy_text(&self.input), cursor: self.cursor }
    }

    pub fn get_string(&self) -> (s: String)
        ensures
            s@ == self@.input,
    {
        to_text(&self.input)
    }

    pub fn chars(&self) -> (s: &Vec<char>)
        ensures
            s@ == self@.input,
    {
        &self.input
    }

    pub fn get_cursor(&self) -> (c: usize)
        ensures
            c == self@.cursor,
    {
        self.cursor
    }

    /// Moves the cursor; this is how a caller rewinds after a failed trial.
    pub fn set_cursor(&mut self, cursor: usize)
        requires
            cursor <= old(self)@.input.len(),
        ensures
            final(self)@.input == old(self)@.input,
            final(self)@.cursor == cursor,
            final(self).wf(),
    {
        self.cursor = cursor;
    }

    pub fn get_total_length(&self) -> (n: usize)
        ensures
            n == self@.input.len(),
    {
        self.input.len()
    }

    pub fn get_remaining_length(&self) -> (n: usize)
        ensures
            n == self@.input.len() - self@.cursor,
    {
        proof {
            use_type_invariant(&*self);
        }
        self.input.len() - self.cursor
    }

    /// The text before the cursor.
    pub fn get_read(&self) -> (s: String)
        ensures
            s@ == self@.input.subrange(0, self@.cursor),
    {
        proof {
            use_type_invariant(&*self);
        }
        to_text(&self.slice(0, self.cursor))
    }

    /// The text from the cursor on.
    pub fn get_remaining(&self) -> (s: String)
        ensures
            s@ == self.spec_remaining(),
    {
        proof {
            use_type_invariant(&*self);
        }
        to_text(&self.slice(self.cursor, self.input.len()))
    }

    /// The characters from `from` up to `to`.
    pub fn slice(&self, from: usize, to: usize) -> (out: Vec<char>)
        requires
            from <= to <= self@.input.len(),
        ensures
            out@ == self@.input.subrange(from as int, to as int),
    {
        let mut out: Vec<char> = Vec::new();
        let mut i: usize = from;
        while i < to
            invariant
                from <= i <= to <= self.input.len(),
                out@ == self.input@.subrange(from as int, i as int),
            decreases to - i,
        {
            out.push(self.input[i]);
            i = i + 1;
        }
        out
    }

    /// Whether `length` more characters can be read.
    pub fn can_read_length(&self, length: usize) -> (r: bool)
        ensures
            r == (self@.cursor + length <= self@.input.len()),
    {
        proof {
            use_type_invariant(&*self);
        }
        length <= self.input.len() - self.cursor
    }

    pub fn can_read(&self) -> (r: bool)
        ensures
            r == (self@.cursor < self@.input.len()),
    {
        self.cursor < self.input.len()
    }

    pub fn peek(&self) -> (c: char)
        requires
            self@.cursor < self@.input.len(),
        ensures
            c == self@.input[self@.cursor],
    {
        self.input[self.cursor]
    }

    pub fn peek_offset(&self, offset: usize) -> (c: char)
        requires
            self@.cursor + offset < self@.input.len(),
        ensures
            c == self@.input[self@.cursor + offset],
    {
        let n: usize = self.input.len();
        assert(self.cursor + offset < n);
        self.input[self.cursor + offset]
    }

    /// Returns the character at the cursor and steps past it.
    pub fn read(&mut self) -> (c: char)
        requires
            old(self)@.cursor < old(self)@.input.len(),
        ensures
            c == old(self)@.input[old(self)@.cursor],
            final(self)@.input == old(self)@.input,
            final(self)@.cursor == old(self)@.cursor + 1,
    {
        let n: usize = self.input.len();
        let c = self.input[self.cursor];
        assert(self.cursor < n);
        self.cursor = self.cursor + 1;
        c
    }

    pub fn skip(&mut self)
        requires
            old(self)@.cursor < old(self)@.input.len(),
        ensures
            final(self)@.input == old(self)@.input,
            final(self)@.cursor == old(self)@.cursor + 1,
    {
        let n: usize = self.input.len();
        assert(self.cursor < n);
        self.cursor = self.cursor + 1;
    }

    /// Steps past the run of whitespace at the cursor.
    pub fn skip_whitespace(&mut self)
        ensures
            final(self).wf(),
            final(self)@.input == old(self)@.input,
            final(self)@.cursor == scan_while(
                old(self)@.input,
                old(self)@.cursor,
                |c: char| spec_is_whitespace(c),
            ),
    {
        proof {
            use_type_invariant(&*self);
        }
        let ghost start = self.cursor as int;
        while self.cursor < self.input.len() && is_whitespace(self.input[self.cursor])
            invariant
                self.input@ == old(self).input@,
                0 <= start <= self.cursor <= self.input.len(),
                forall|i: int| start <= i < self.cursor ==> spec_is_whitespace(#[trigger] self.input@[i]),
            decreases self.input.len() - self.cursor,
        {
            self.cursor = self.cursor + 1;
        }
        proof {
            lemma_scan_while_is(self.input@, start, |c: char| spec_is_whitespace(c), self.cursor as int);
        }
    }

    /// Reads a 32-bit integer: the run of digits, dots and minus signs at the
    /// cursor, which must denote one. On failure the cursor is where it was.
    pub fn read_int(&mut self) -> (r: Result<i32, CommandSyntaxException>)
        ensures
            final(self).wf(),
            final(self)@.input == old(self)@.input,
            match scan_int(old(self)@.input, old(self)@.cursor) {
                Ok((value, end)) => r == Ok::<i32, CommandSyntaxException>(value as i32) && final(self)@.cursor == end,
                Err((kind, at)) => r matches Err(e) && final(self)@.cursor == at && e@ == (
                ExceptionView { kind, input: old(self)@.input, cursor: at }),
            },
    {
        proof {
            use_type_invariant(&*self);
        }
        let start: usize = self.cursor;
        let mut end: usize = start;
        while end < self.input.len() && is_allowed_number(self.input[end])
            invariant
                start <= end <= self.input.len(),
                forall|i: int| start <= i < end ==> spec_is_allowed_number(#[trigger] self.input@[i]),
            decreases self.input.len() - end,
        {
            end = end + 1;
        }
        proof {
            lemma_scan_while_is(
                self.input@,
                start as int,
                |c: char| spec_is_allowed_number(c),
                end as int,
            );
        }
        if end == start {
            return Err(
                CommandSyntaxException::new(BuiltInExceptions::ReaderExpectedInt, &self.input, start),
            );
        }
        match parse_int_token(&self.input, start, end) {
            Some(v) => {
                self.cursor = end;
                Ok(v)
            },
            None => Err(
                CommandSyntaxException::new(BuiltInExceptions::ReaderInvalidInt, &self.input, start),
            ),
        }
    }

    /// Reads the run of characters allowed in an unquoted string.
    pub fn read_unquoted_string(&mut self) -> (out: Vec<char>)
        ensures
            final(self).wf(),
            final(self)@.input == old(self)@.input,
            final(self)@.cursor == scan_while(
                old(self)@.input,
                old(self)@.cursor,
                |c: char| spec_is_allowed_in_unquoted_string(c),
            ),
            out@ == old(self)@.input.subrange(old(self)@.cursor, final(self)@.cursor),
    {
        proof {
            use_type_invariant(&*self);
        }
        let start: usize = self.cursor;
        while self.cursor < self.input.len() && is_allowed_in_unquoted_string(
            self.input[self.cursor],
        )
            invariant
                self.input@ == old(self).input@,
                start <= self.cursor <= self.input.len(),
                forall|i: int|
                    start <= i < self.cursor ==> spec_is_allowed_in_unquoted_string(
                        #[trigger] self.input@[i],
                    ),
            decreases self.input.len() - self.cursor,
        {
            self.cursor = self.cursor + 1;
        }
        proof {
            lemma_scan_while_is(
                self.input@,
                start as int,
                |c: char| spec_is_allowed_in_unquoted_string(c),
                self.cursor as int,
            );
        }
        self.slice(start, self.cursor)
    }

    /// Reads up to and past the next unescaped `terminator`. On failure the
    /// cursor is left at the offset of the failure.
    pub fn read_string_until(&mut self, terminator: char) -> (r: Result<
        Vec<char>,
        CommandSyntaxException,
    >)
        ensures
            final(self).wf(),
            final(self)@.input == old(self)@.input,
            match scan_quoted(
                old(self)@.input,
                old(self)@.cursor,
                terminator,
                Seq::<char>::empty(),
            ) {
                Ok((text, end)) => r matches Ok(out) && out@ == text && final(self)@.cursor == end,
                Err((kind, at)) => r matches Err(e) && final(self)@.cursor == at && e@ == (
                ExceptionView { kind, input: old(self)@.input, cursor: at }),
            },
    {
        proof {
            use_type_invariant(&*self);
        }
        let mut out: Vec<char> = Vec::new();
        let ghost start = self.cursor as int;
        let ghost input = self.input@;
        while self.cursor < self.input.len()
            invariant
                self.input@ == input,
                input == old(self)@.input,
                start == old(self)@.cursor,
                0 <= start <= self.cursor <= self.input.len(),
                scan_quoted(input, start, terminator, Seq::<char>::empty()) == scan_quoted(
                    input,
                    self.cursor as int,
                    terminator,
                    out@,
                ),
            decreases self.input.len() - self.cursor,
        {
            let c = self.input[self.cursor];
            if c == SYNTAX_ESCAPE {
                if self.cursor + 1 >= self.input.len() {
                    self.cursor = self.input.len();
                    return Err(
                        CommandSyntaxException::new(
                            BuiltInExceptions::ReaderExpectedEndOfQuote,
                            &self.input,
                            self.cursor,
                        ),
                    );
                }
                let d = self.input[self.cursor + 1];
                if d == terminator || d == SYNTAX_ESCAPE {
                    out.push(d);
                    self.cursor = self.cursor + 2;
                } else {
                    self.cursor = self.cursor + 1;
                    return Err(
                        CommandSyntaxException::new(
                            BuiltInExceptions::ReaderInvalidEscape,
                            &self.input,
                            self.cursor,
                        ),
                    );
                }
            } else if c == terminator {
                self.cursor = self.cursor + 1;
                return Ok(out);
            } else {
                out.push(c);
                self.cursor = self.cursor + 1;
            }
        }
        Err(
            CommandSyntaxException::new(
                BuiltInExceptions::ReaderExpectedEndOfQuote,
                &self.input,
                self.cursor,
            ),
        )
    }

    /// Reads a quoted string: nothing at the end of the input, else an
    /// opening quote and the text up to the matching closing quote.
    pub fn read_quoted_string(&mut self) -> (r: Result<Vec<char>, CommandSyntaxException>)
        ensures
            final(self).wf(),
            final(self)@.input == old(self)@.input,
            ({
                let input = old(self)@.input;
                let start = old(self)@.cursor;
                if start >= input.len() {
                    r matches Ok(out) && out@ == Seq::<char>::empty() && final(self)@.cursor
                        == start
                } else if !spec_is_quoted_string_start(input[start]) {
                    r matches Err(e) && final(self)@.cursor == start && e@ == (ExceptionView {
                        kind: BuiltInExceptions::ReaderExpectedStartOfQuote,
                        input,
                        cursor: start,
                    })
                } else {
                    match scan_quoted(input, start + 1, input[start], Seq::<char>::empty()) {
                        Ok((text, end)) => r matches Ok(out) && out@ == text && final(self)@.cursor == end,
                        Err((kind, at)) => r matches Err(e) && final(self)@.cursor == at && e@
                            == (ExceptionView { kind, input, cursor: at }),
                    }
                }
            }),
    {
        proof {
            use_type_invariant(&*self);
        }
        if !self.can_read() {
            return Ok(Vec::new());
        }
        let next = self.peek();
        if !is_quoted_string_start(next) {
            return Err(
                CommandSyntaxException::new(
                    BuiltInExceptions::ReaderExpectedStartOfQuote,
                    &self.input,
                    self.cursor,
                ),
            );
        }
        self.skip();
        self.read_string_until(next)
    }

    /// Reads a string, quoted or not.
    pub fn read_string(&mut self) -> (r: Result<Vec<char>, CommandSyntaxException>)
        ensures
            final(self).wf(),
            final(self)@.input == old(self)@.input,
            match scan_string(old(self)@.input, old(self)@.cursor) {
                Ok((text, end)) => r matches Ok(out) && out@ == text && final(self)@.cursor == end,
                Err((kind, at)) => r matches Err(e) && final(self)@.cursor == at && e@ == (
                ExceptionView { kind, input: old(self)@.input, cursor: at }),
            },
    {
        proof {
            use_type_invariant(&*self);
        }
        if !self.can_read() {
            return Ok(Vec::new());
        }
        let next = self.peek();
        if is_quoted_string_start(next) {
            self.skip();
            return self.read_string_until(next);
        }
        Ok(self.read_unquoted_string())
    }

    /// Reads `true` or `false`, written as a string. An empty string fails
    /// where it ended; any other word fails with the cursor back at its start.
    pub fn read_boolean(&mut self) -> (r: Result<bool, CommandSyntaxException>)
        ensures
            final(self).wf(),
            final(self)@.input == old(self)@.input,
            match scan_boolean(old(self)@.input, old(self)@.cursor) {
                Ok((value, end)) => r == Ok::<bool, CommandSyntaxException>(value) && final(self)@.cursor == end,
                Err((kind, at)) => r matches Err(e) && final(self)@.cursor == at && e@ == (
                ExceptionView { kind, input: old(self)@.input, cursor: at }),
            },
    {
        let start: usize = self.cursor;
        let value = self.read_string()?;
        if value.len() == 0 {
            return Err(
                CommandSyntaxException::new(
                    BuiltInExceptions::ReaderExpectedBool,
                    &self.input,
                    self.cursor,
                ),
            );
        }
        if value.len() == 4 && value[0] == 't' && value[1] == 'r' && value[2] == 'u' && value[3]
            == 'e' {
            assert(value@ == seq!['t', 'r', 'u', 'e']);
            Ok(true)
        } else if value.len() == 5 && value[0] == 'f' && value[1] == 'a' && value[2] == 'l'
            && value[3] == 's' && value[4] == 'e' {
            assert(value@ == seq!['f', 'a', 'l', 's', 'e']);
            Ok(false)
        } else {
            assert(value@ != seq!['t', 'r', 'u', 'e']) by {
                let t = seq!['t', 'r', 'u', 'e'];
                assert(t.len() == 4 && t[0] == 't' && t[1] == 'r' && t[2] == 'u' && t[3] == 'e');
            }
            assert(value@ != seq!['f', 'a', 'l', 's', 'e']) by {
                let f = seq!['f', 'a', 'l', 's', 'e'];
                assert(f.len() == 5 && f[0] == 'f' && f[1] == 'a' && f[2] == 'l' && f[3] == 's'
                    && f[4] == 'e');
            }
            self.cursor = start;
            Err(
                CommandSyntaxException::new(BuiltInExceptions::ReaderInvalidBool, &self.input, start),
            )
        }
    }

    /// Steps past `c`, which must be the character at the cursor.
    pub fn expect(&mut self, c: char) -> (r: Result<(), CommandSyntaxException>)
        ensures
            final(self).wf(),
            final(self)@.input == old(self)@.input,
            ({
                let input = old(self)@.input;
                let start = old(self)@.cursor;
                if start < input.len() && input[start] == c {
                    r is Ok && final(self)@.cursor == start + 1
                } else {
                    r matches Err(e) && final(self)@.cursor == start && e@ == (ExceptionView {
                        kind: BuiltInExceptions::ReaderExpectedSymbol,
                        input,
                        cursor: start,
                    })
                }
            }),
    {
        proof {
            use_type_invariant(&*self);
        }
        if !self.can_read() || self.peek() != c {
            return Err(
                CommandSyntaxException::new(
                    BuiltInExceptions::ReaderExpectedSymbol,
                    &self.input,
                    self.cursor,
                ),
            );
        }
        self.skip();
        Ok(())
    }
}

/// The integer that the characters of `input` from `start` up to `end`
/// denote, if they denote one.
pub fn parse_int_token(input: &Vec<char>, start: usize, end: usize) -> (r: Option<i32>)
    requires
        start <= end <= input.len(),
    ensures
        match r {
            Some(v) => int_value(input@.subrange(start as int, end as int)) == Some(v as int),
            None => int_value(input@.subrange(start as int, end as int)) is None,
        },
{
    let ghost token = input@.subrange(start as int, end as int);
    let negative: bool = start < end && input[start] == '-';
    let first: usize = if negative { start + 1 } else { start };
    let ghost digits = input@.subrange(first as int, end as int);
    assert(digits == if negative { token.subrange(1, token.len() as int) } else { token });
    if first == end {
        return None;
    }
    let limit: i64 = 2147483648;
    let mut acc: i64 = 0;
    let mut over: bool = false;
    let mut i: usize = first;
    while i < end
        invariant
            first <= i <= end <= input.len(),
            limit == 2147483648,
            all_digits(input@.subrange(first as int, i as int)),
            !over ==> acc == decimal_value(input@.subrange(first as int, i as int)) && 0 <= acc
                <= limit,
            over ==> decimal_value(input@.subrange(first as int, i as int)) > limit,
            digits == input@.subrange(first as int, end as int),
            token == input@.subrange(start as int, end as int),
            digits == if negative { token.subrange(1, token.len() as int) } else { token },
            negative == (token.len() > 0 && token[0] == '-'),
        decreases end - i,
    {
        let c = input[i];
        if !(c >= '0' && c <= '9') {
            assert(digits[i - first] == c);
            return None;
        }
        let d: i64 = (c as u32 - '0' as u32) as i64;
        proof {
            let prev = input@.subrange(first as int, i as int);
            let next = input@.subrange(first as int, i + 1);
            assert(next.drop_last() == prev);
            assert(next.last() == c);
            assert(decimal_value(next) == decimal_value(prev) * 10 + digit_value(c));
            assert forall|k: int| 0 <= k < next.len() implies spec_is_digit(#[trigger] next[k]) by {
                if k < prev.len() {
                    assert(next[k] == prev[k]);
                }
            }
        }
        if !over {
            let next: i64 = acc * 10 + d;
            if next > limit {
                over = true;
            } else {
                acc = next;
            }
        }
        i = i + 1;
    }
    assert(input@.subrange(first as int, i as int) == digits);
    if over {
        None
    } else if negative {
        Some((-acc) as i32)
    } else if acc == limit {
        None
    } else {
        Some(acc as i32)
    }
}

} // verus!
