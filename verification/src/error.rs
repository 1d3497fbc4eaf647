//! Diagnostics: the lines reported for malformed input, collected per run.
//!
//! A [`Diagnostics`] value is handed to whoever may report; nothing here
//! writes to a stream. Each report adds one line of the shape
//! `[line <start>..<end>] Error<location>: <message>` and raises the error
//! flag.

use crate::token::{Span, Token, TokenType, Value, ValueView};
use vstd::prelude::*;
use vstd::string::StringExecFns;

verus! {

/// The error a failed parse step hands back; it carries the reported message.
#[derive(Debug, PartialEq)]
pub struct ParseError {
    pub message: String,
}

/// A fatal evaluation error; it ends the run.
#[derive(Debug, PartialEq)]
pub enum RuntimeError {
    /// A name was read or assigned that no scope in the chain defines.
    UndefinedVariable(String),
    /// An arithmetic or comparison operator met an operand that is no number.
    OperandsMustBeNumbers(Value, Value),
    /// The concatenation operator met an operand that is no text.
    ConcatenationMismatch(Value, Value),
    /// Unary minus met an operand that is no number.
    NotANumber(Value),
    /// Something other than a function was called.
    NotCallable,
    /// A function was called with the wrong number of arguments.
    WrongArgumentCount { expected: usize, got: usize },
    /// A `return` was executed outside any function call.
    ReturnOutsideFunction,
    /// The host answered a request with a value of the wrong kind.
    UnexpectedAnswer,
}

/// The model of a [`RuntimeError`].
pub enum RuntimeErrorView {
    UndefinedVariable(Seq<char>),
    OperandsMustBeNumbers(ValueView, ValueView),
    ConcatenationMismatch(ValueView, ValueView),
    NotANumber(ValueView),
    NotCallable,
    WrongArgumentCount { expected: nat, got: nat },
    ReturnOutsideFunction,
    UnexpectedAnswer,
}

impl View for RuntimeError {
    type V = RuntimeErrorView;

    open spec fn view(&self) -> RuntimeErrorView {
        match self {
            RuntimeError::UndefinedVariable(name) => RuntimeErrorView::UndefinedVariable(name@),
            RuntimeError::OperandsMustBeNumbers(left, right) => {
                RuntimeErrorView::OperandsMustBeNumbers(left@, right@)
            },
            RuntimeError::ConcatenationMismatch(left, right) => {
                RuntimeErrorView::ConcatenationMismatch(left@, right@)
            },
            RuntimeError::NotANumber(value) => RuntimeErrorView::NotANumber(value@),
            RuntimeError::NotCallable => RuntimeErrorView::NotCallable,
            RuntimeError::WrongArgumentCount { expected, got } => {
                RuntimeErrorView::WrongArgumentCount { expected: *expected as nat, got: *got as nat }
            },
            RuntimeError::ReturnOutsideFunction => RuntimeErrorView::ReturnOutsideFunction,
            RuntimeError::UnexpectedAnswer => RuntimeErrorView::UnexpectedAnswer,
        }
    }
}

/// The lines reported so far, and whether anything was reported.
#[derive(Debug)]
pub struct Diagnostics {
    flag: bool,
    reported: Vec<String>,
}

/// One decimal digit as text.
pub open spec fn digit_text(d: nat) -> Seq<char> {
    if d == 0 {
        "0"@
    } else if d == 1 {
        "1"@
    } else if d == 2 {
        "2"@
    } else if d == 3 {
        "3"@
    } else if d == 4 {
        "4"@
    } else if d == 5 {
        "5"@
    } else if d == 6 {
        "6"@
    } else if d == 7 {
        "7"@
    } else if d == 8 {
        "8"@
    } else {
        "9"@
    }
}

/// A natural number in decimal, most significant digit first.
pub open spec fn decimal(n: nat) -> Seq<char>
    decreases n,
{
    if n < 10 {
        digit_text(n)
    } else {
        decimal(n / 10) + digit_text(n % 10)
    }
}

/// The text of one report.
pub open spec fn report_line(span: Span, location: Seq<char>, message: Seq<char>) -> Seq<char> {
    "[line "@ + decimal(span.start as nat) + ".."@ + decimal(span.end as nat) + "] Error"@
        + location + ": "@ + message
}

/// Where a report about `token` points: the end of input, or the token's text.
pub open spec fn location_of(token: Token) -> Seq<char> {
    if token.token_type == TokenType::EndOfFile {
        " at end"@
    } else {
        " at '"@ + token.lexeme@ + "'"@
    }
}

fn digit_str(d: usize) -> (text: &'static str)
    requires
        d < 10,
    ensures
        text@ == digit_text(d as nat),
{
    if d == 0 {
        "0"
    } else if d == 1 {
        "1"
    } else if d == 2 {
        "2"
    } else if d == 3 {
        "3"
    } else if d == 4 {
        "4"
    } else if d == 5 {
        "5"
    } else if d == 6 {
        "6"
    } else if d == 7 {
        "7"
    } else if d == 8 {
        "8"
    } else {
        "9"
    }
}

fn push_decimal(line: &mut String, n: usize)
    ensures
        final(line)@ == old(line)@ + decimal(n as nat),
    decreases n,
{
    if n >= 10 {
        push_decimal(line, n / 10);
    }
    line.append(digit_str(n % 10));
    assert(line@ =~= old(line)@ + decimal(n as nat));
}

impl Diagnostics {
    /// The reported lines, oldest first.
    pub closed spec fn lines(&self) -> Seq<Seq<char>> {
        Seq::new(self.reported@.len(), |i: int| self.reported@[i]@)
    }

    /// Whether the error flag is raised.
    pub closed spec fn flagged(&self) -> bool {
        self.flag
    }

    /// An empty collector with the flag down.
    pub fn new() -> (diagnostics: Self)
        ensures
            diagnostics.lines() == Seq::<Seq<char>>::empty(),
            !diagnostics.flagged(),
    {
        let diagnostics = Diagnostics { flag: false, reported: Vec::new() };
        assert(diagnostics.lines() =~= Seq::<Seq<char>>::empty());
        diagnostics
    }

    /// The number of reported lines.
    pub fn len(&self) -> (n: usize)
        ensures
            n == self.lines().len(),
    {
        self.reported.len()
    }

    /// The `i`-th reported line.
    pub fn line(&self, i: usize) -> (text: &String)
        requires
            i < self.lines().len(),
        ensures
            text@ == self.lines()[i as int],
    {
        &self.reported[i]
    }
}

/// Whether anything has been reported to `diagnostics` since the flag was
/// last lowered.
pub fn had_error(diagnostics: &Diagnostics) -> (flag: bool)
    ensures
        flag == diagnostics.flagged(),
{
    diagnostics.flag
}

/// Raises or lowers the error flag; the reported lines stay.
pub fn set_had_error(diagnostics: &mut Diagnostics, b: bool)
    ensures
        final(diagnostics).flagged() == b,
        final(diagnostics).lines() == old(diagnostics).lines(),
{
    diagnostics.flag = b;
}

/// Adds the line for `span`, `where_` and `message`, and raises the flag.
pub fn report(diagnostics: &mut Diagnostics, span: Span, where_: &str, message: &str)
    ensures
        final(diagnostics).lines() == old(diagnostics).lines().push(
            report_line(span, where_@, message@),
        ),
        final(diagnostics).flagged(),
{
    let mut line = String::from_str("[line ");
    push_decimal(&mut line, span.start);
    line.append("..");
    push_decimal(&mut line, span.end);
    line.append("] Error");
    line.append(where_);
    line.append(": ");
    line.append(message);
    assert(line@ =~= report_line(span, where_@, message@));
    diagnostics.reported.push(line);
    assert(diagnostics.lines() =~= old(diagnostics).lines().push(
        report_line(span, where_@, message@),
    ));
    set_had_error(diagnostics, true);
}

/// Reports `message` at `span`, with no location.
pub fn error(diagnostics: &mut Diagnostics, span: Span, message: &str)
    ensures
        final(diagnostics).lines() == old(diagnostics).lines().push(
            report_line(span, Seq::<char>::empty(), message@),
        ),
        final(diagnostics).flagged(),
{
    proof {
        reveal_strlit("");
        assert(""@ =~= Seq::<char>::empty());
    }
    report(diagnostics, span, "", message);
}

/// Reports `message` at `token`, naming the token's text, or the end of
/// input where the token is `EndOfFile`.
pub fn error_at_token(diagnostics: &mut Diagnostics, token: &Token, message: &str)
    ensures
        final(diagnostics).lines() == old(diagnostics).lines().push(
            report_line(token.span, location_of(*token), message@),
        ),
        final(diagnostics).flagged(),
{
    if token.token_type == TokenType::EndOfFile {
        report(diagnostics, token.span, " at end", message);
    } else {
        let mut location = String::from_str(" at '");
        location.append(token.lexeme.as_str());
        location.append("'");
        assert(location@ =~= location_of(*token));
        report(diagnostics, token.span, location.as_str(), message);
    }
}

/// Reports `message` at the span of `token` and fails with that message.
pub fn error_at<T>(diagnostics: &mut Diagnostics, token: Token, message: &str) -> (failure: Result<
    T,
    ParseError,
>)
    ensures
        final(diagnostics).lines() == old(diagnostics).lines().push(
            report_line(token.span, Seq::<char>::empty(), message@),
        ),
        final(diagnostics).flagged(),
        failure matches Err(e) && e.message@ == message@,
{
    error(diagnostics, token.span, message);
    Err(ParseError { message: String::from_str(message) })
}

} // verus!
