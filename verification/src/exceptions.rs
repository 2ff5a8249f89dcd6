//! Structured failures of reading, parsing and dispatching.
use vstd::prelude::*;
use crate::text::{copy_text, to_text};

verus! {

/// How many characters before the cursor a failure's context shows.
pub const CONTEXT_AMOUNT: usize = 10;

/// What went wrong.
#[derive(Clone, Copy, Debug, PartialEq, Eq, Structural)]
pub enum BuiltInExceptions {
    ReaderExpectedStartOfQuote,
    ReaderExpectedEndOfQuote,
    ReaderInvalidEscape,
    ReaderInvalidBool,
    ReaderExpectedBool,
    ReaderInvalidInt,
    ReaderExpectedInt,
    ReaderExpectedSymbol,
    IntegerTooLow,
    IntegerTooHigh,
    LiteralIncorrect,
    DispatcherUnknownCommand,
    DispatcherUnknownArgument,
    DispatcherExpectedArgumentSeparator,
    RootIntoBuilder,
    BuilderDuplicateChild,
    BuilderUnknownNode,
    BuilderRedirectedParent,
}

impl BuiltInExceptions {
    /// The human-readable text of each kind.
    pub open spec fn spec_message(self) -> Seq<char> {
        match self {
            BuiltInExceptions::ReaderExpectedStartOfQuote => "Expected quote to start a string"@,
            BuiltInExceptions::ReaderExpectedEndOfQuote => "Unclosed quoted string"@,
            BuiltInExceptions::ReaderInvalidEscape => "Invalid escape sequence in quoted string"@,
            BuiltInExceptions::ReaderInvalidBool => "Invalid bool, expected true or false"@,
            BuiltInExceptions::ReaderExpectedBool => "Expected bool"@,
            BuiltInExceptions::ReaderInvalidInt => "Invalid integer"@,
            BuiltInExceptions::ReaderExpectedInt => "Expected integer"@,
            BuiltInExceptions::ReaderExpectedSymbol => "Expected symbol"@,
            BuiltInExceptions::IntegerTooLow => "Integer is below the minimum"@,
            BuiltInExceptions::IntegerTooHigh => "Integer is above the maximum"@,
            BuiltInExceptions::LiteralIncorrect => "Expected literal"@,
            BuiltInExceptions::DispatcherUnknownCommand => "Unknown command"@,
            BuiltInExceptions::DispatcherUnknownArgument => "Incorrect argument for command"@,
            BuiltInExceptions::DispatcherExpectedArgumentSeparator =>
                "Expected whitespace to end one argument, but found trailing data"@,
            BuiltInExceptions::RootIntoBuilder => "Cannot convert root into a builder"@,
            BuiltInExceptions::BuilderDuplicateChild => "A sibling has this name already"@,
            BuiltInExceptions::BuilderUnknownNode => "No such node in the tree"@,
            BuiltInExceptions::BuilderRedirectedParent =>
                "Cannot add children to a redirected node"@,
        }
    }

    /// The human-readable text of this kind.
    pub fn message(self) -> (out: String)
        ensures
            out@ == self.spec_message(),
    {
        let s: &str = match self {
            BuiltInExceptions::ReaderExpectedStartOfQuote => "Expected quote to start a string",
            BuiltInExceptions::ReaderExpectedEndOfQuote => "Unclosed quoted string",
            BuiltInExceptions::ReaderInvalidEscape => "Invalid escape sequence in quoted string",
            BuiltInExceptions::ReaderInvalidBool => "Invalid bool, expected true or false",
            BuiltInExceptions::ReaderExpectedBool => "Expected bool",
            BuiltInExceptions::ReaderInvalidInt => "Invalid integer",
            BuiltInExceptions::ReaderExpectedInt => "Expected integer",
            BuiltInExceptions::ReaderExpectedSymbol => "Expected symbol",
            BuiltInExceptions::IntegerTooLow => "Integer is below the minimum",
            BuiltInExceptions::IntegerTooHigh => "Integer is above the maximum",
            BuiltInExceptions::LiteralIncorrect => "Expected literal",
            BuiltInExceptions::DispatcherUnknownCommand => "Unknown command",
            BuiltInExceptions::DispatcherUnknownArgument => "Incorrect argument for command",
            BuiltInExceptions::DispatcherExpectedArgumentSeparator =>
                "Expected whitespace to end one argument, but found trailing data",
            BuiltInExceptions::RootIntoBuilder => "Cannot convert root into a builder",
            BuiltInExceptions::BuilderDuplicateChild => "A sibling has this name already",
            BuiltInExceptions::BuilderUnknownNode => "No such node in the tree",
            BuiltInExceptions::BuilderRedirectedParent =>
                "Cannot add children to a redirected node",
        };
        s.to_owned()
    }
}

/// A failure together with the input it occurred in and the cursor offset
/// at which it occurred.
#[derive(Debug)]
pub struct CommandSyntaxException {
    pub kind: BuiltInExceptions,
    pub input: Vec<char>,
    pub cursor: usize,
}

/// What a failure is, as plain values.
pub struct ExceptionView {
    pub kind: BuiltInExceptions,
    pub input: Seq<char>,
    pub cursor: int,
}

impl View for CommandSyntaxException {
    type V = ExceptionView;

    open spec fn view(&self) -> ExceptionView {
        ExceptionView { kind: self.kind, input: self.input@, cursor: self.cursor as int }
    }
}

/// The excerpt of `input` that ends at `cursor`: at most `CONTEXT_AMOUNT`
/// characters, preceded by an ellipsis when more were cut off.
pub open spec fn spec_context(input: Seq<char>, cursor: int) -> Seq<char> {
    let at = if cursor < input.len() { cursor } else { input.len() as int };
    let from = if at > CONTEXT_AMOUNT as int { at - CONTEXT_AMOUNT as int } else { 0 };
    let lead = if at > CONTEXT_AMOUNT as int { seq!['.', '.', '.'] } else { Seq::<char>::empty() };
    lead + input.subrange(from, at) + seq!['<', '-', '-', '[', 'H', 'E', 'R', 'E', ']']
}

impl CommandSyntaxException {
    pub fn new(kind: BuiltInExceptions, input: &Vec<char>, cursor: usize) -> (e: Self)
        ensures
            e@ == (ExceptionView { kind, input: input@, cursor: cursor as int }),
    {
        CommandSyntaxException { kind, input: copy_text(input), cursor }
    }

    pub fn kind(&self) -> (k: BuiltInExceptions)
        ensures
            k == self@.kind,
    {
        self.kind
    }

    pub fn cursor(&self) -> (c: usize)
        ensures
            c == self@.cursor,
    {
        self.cursor
    }

    pub fn input(&self) -> (s: String)
        ensures
            s@ == self@.input,
    {
        to_text(&self.input)
    }

    /// The human-readable message, without position.
    pub fn raw_message(&self) -> (s: String)
        ensures
            s@ == self@.kind.spec_message(),
    {
        self.kind.message()
    }

    /// The input just before the failure, marked with where it happened.
    pub fn context(&self) -> (s: String)
        ensures
            s@ == spec_context(self@.input, self@.cursor),
    {
        let at: usize = if self.cursor < self.input.len() { self.cursor } else { self.input.len() };
        let mut out: Vec<char> = Vec::new();
        let mut i: usize = 0;
        if at > CONTEXT_AMOUNT {
            out.push('.');
            out.push('.');
            out.push('.');
            i = at - CONTEXT_AMOUNT;
        }
        let ghost lead = out@;
        let ghost from = i as int;
        while i < at
            invariant
                0 <= from <= i <= at <= self.input.len(),
                out@ == lead + self.input@.subrange(from, i as int),
            decreases at - i,
        {
            out.push(self.input[i]);
            i = i + 1;
        }
        let ghost body = out@;
        out.push('<');
        out.push('-');
        out.push('-');
        out.push('[');
        out.push('H');
        out.push('E');
        out.push('R');
        out.push('E');
        out.push(']');
        assert(out@ == body + seq!['<', '-', '-', '[', 'H', 'E', 'R', 'E', ']']);
        to_text(&out)
    }

    /// A copy of this failure.
    pub fn duplicate(&self) -> (e: Self)
        ensures
            e@ == self@,
    {
        CommandSyntaxException { kind: self.kind, input: copy_text(&self.input), cursor: self.cursor }
    }
}

} // verus!
