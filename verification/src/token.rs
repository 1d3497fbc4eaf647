//! Tokens and runtime values.
//!
//! A token stream is produced by a lexer outside this crate and handed to the
//! parser as a `Vec<Token>` that ends in an `EndOfFile` token.

use vstd::prelude::*;
use vstd::string::{StrSliceExecFns, StringExecFns};

verus! {

/// The kind of a token.
#[derive(Clone, Copy, Debug, PartialEq, Eq, Structural)]
pub enum TokenType {
    // Operators
    LeftParen,
    RightParen,
    LeftCurlyBrace,
    RightCurlyBrace,
    Plus,
    TextConcat,
    Minus,
    Slash,
    Percent,
    Star,
    Equal,
    EqualEqual,
    Bang,
    BangEqual,
    Greater,
    GreaterEqual,
    Less,
    LessEqual,
    Comma,
    // Literals
    Text,
    Number,
    Identifier,
    Comment,
    // Keywords
    And,
    Or,
    True,
    False,
    Var,
    Const,
    Print,
    Return,
    If,
    Else,
    Nil,
    While,
    For,
    Function,
    // Delimiters
    EndOfExpression,
    EndOfFile,
}

/// A half-open range of byte offsets into the source text.
#[derive(Clone, Copy, Debug, PartialEq, Eq, Structural)]
pub struct Span {
    pub start: usize,
    pub end: usize,
}

/// A runtime value.
///
/// A number is held as the bit pattern of an IEEE 754 double; this crate
/// never interprets the bits except to flip the sign. A function is held as
/// the index of its closure in the interpreter's closure table.
#[derive(Debug, PartialEq)]
pub enum Value {
    Text(String),
    Number(u64),
    Boolean(bool),
    Nil,
    Function(usize),
}

/// The mathematical model of a [`Value`].
pub enum ValueView {
    Text(Seq<char>),
    Number(u64),
    Boolean(bool),
    Nil,
    Function(nat),
}

impl View for Value {
    type V = ValueView;

    open spec fn view(&self) -> ValueView {
        match self {
            Value::Text(s) => ValueView::Text(s@),
            Value::Number(bits) => ValueView::Number(*bits),
            Value::Boolean(b) => ValueView::Boolean(*b),
            Value::Nil => ValueView::Nil,
            Value::Function(id) => ValueView::Function(*id as nat),
        }
    }
}

impl Clone for Value {
    fn clone(&self) -> (copy: Self)
        ensures
            copy == *self,
    {
        match self {
            Value::Text(s) => Value::Text(s.clone()),
            Value::Number(bits) => Value::Number(*bits),
            Value::Boolean(b) => Value::Boolean(*b),
            Value::Nil => Value::Nil,
            Value::Function(id) => Value::Function(*id),
        }
    }
}

/// The literal value a token carries, as a model; `Nil` where it carries none.
pub open spec fn literal_of(value: Option<Value>) -> ValueView {
    match value {
        Some(v) => v@,
        None => ValueView::Nil,
    }
}

/// One lexical unit of the source text.
#[derive(Debug, PartialEq)]
pub struct Token {
    pub token_type: TokenType,
    pub lexeme: String,
    pub value: Option<Value>,
    pub span: Span,
}

impl Token {
    pub fn new(token_type: TokenType, lexeme: String, value: Option<Value>, span: Span) -> (token:
        Self)
        ensures
            token.token_type == token_type,
            token.lexeme == lexeme,
            token.value == value,
            token.span == span,
    {
        Self { token_type, lexeme, value, span }
    }
}

/// The text of a token of kind `token_type` whose source text is `slice`:
/// a text literal without its two delimiters, anything else as it stands.
pub open spec fn lexeme_of(token_type: TokenType, slice: Seq<char>) -> Seq<char> {
    if token_type == TokenType::Text {
        slice.subrange(1, slice.len() - 1)
    } else {
        slice
    }
}

/// The literal value of a token of kind `token_type` with the text
/// `lexeme`: the text of a text literal, the number of a number literal,
/// the truth value of `true` and `false`, and nothing for any other kind.
pub open spec fn value_of(token_type: TokenType, lexeme: Seq<char>, number: Option<u64>) -> Option<
    ValueView,
> {
    if token_type == TokenType::Text {
        Some(ValueView::Text(lexeme))
    } else if token_type == TokenType::Number {
        match number {
            Some(bits) => Some(ValueView::Number(bits)),
            None => None,
        }
    } else if token_type == TokenType::True {
        Some(ValueView::Boolean(true))
    } else if token_type == TokenType::False {
        Some(ValueView::Boolean(false))
    } else {
        None
    }
}

/// The model of an optional value.
pub open spec fn value_option_view(value: Option<Value>) -> Option<ValueView> {
    match value {
        Some(v) => Some(v@),
        None => None,
    }
}

impl Token {
    /// The token for the source text `slice` that a lexer recognised as
    /// `token_type` at `span`. A text literal comes with its delimiter at
    /// either end and loses both. `number` is what the digits of a number
    /// literal stand for, as a bit pattern.
    pub fn lexed(token_type: TokenType, slice: &str, number: Option<u64>, span: Span) -> (token:
        Self)
        requires
            token_type == TokenType::Text ==> slice@.len() >= 2,
        ensures
            token.token_type == token_type,
            token.lexeme@ == lexeme_of(token_type, slice@),
            value_option_view(token.value) == value_of(token_type, token.lexeme@, number),
            token.span == span,
    {
        let lexeme = if token_type == TokenType::Text {
            let n = slice.unicode_len();
            String::from_str(slice.substring_char(1, n - 1))
        } else {
            String::from_str(slice)
        };
        let value = if token_type == TokenType::Text {
            Some(Value::Text(lexeme.clone()))
        } else if token_type == TokenType::Number {
            match number {
                Some(bits) => Some(Value::Number(bits)),
                None => None,
            }
        } else if token_type == TokenType::True {
            Some(Value::Boolean(true))
        } else if token_type == TokenType::False {
            Some(Value::Boolean(false))
        } else {
            None
        };
        Token { token_type, lexeme, value, span }
    }
}

impl Clone for Token {
    fn clone(&self) -> (copy: Self)
        ensures
            copy == *self,
    {
        let value = match &self.value {
            Some(v) => Some(v.clone()),
            None => None,
        };
        Token { token_type: self.token_type, lexeme: self.lexeme.clone(), value, span: self.span }
    }
}

} // verus!
