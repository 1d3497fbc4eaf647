//! The grammar, as mathematics.
//!
//! Each function here says what the parser makes of a token sequence from a
//! given position: the tree (or the failure), the position reached and the
//! lines reported on the way. The layers bind, loosest first: assignment,
//! `or`, `and`, equality, comparison, additive, multiplicative, unary, call,
//! primary. Assignment associates to the right, the six binary layers to the
//! left.
//!
//! A position never moves backwards. [`Parsed::since`] records that after
//! every sub-parse, which is what makes the recursion evidently well founded.

use crate::ast::{ExprView, StmtView};
use crate::error::{location_of, report_line};
use crate::token::{literal_of, Token, TokenType, ValueView};
use vstd::prelude::*;

verus! {

/// Where the parser stands: the index of the next token, and the lines
/// reported so far.
pub struct Cursor {
    pub position: nat,
    pub reports: Seq<Seq<char>>,
}

impl Cursor {
    /// The cursor one token further on.
    pub open spec fn step(self) -> Cursor {
        Cursor { position: self.position + 1, reports: self.reports }
    }

    /// The cursor after one more reported line.
    pub open spec fn report(self, line: Seq<char>) -> Cursor {
        Cursor { position: self.position, reports: self.reports.push(line) }
    }
}

/// What one parse step yields: a value or the message it failed with, and
/// the cursor it left.
pub struct Parsed<T> {
    pub outcome: Result<T, Seq<char>>,
    pub cursor: Cursor,
}

impl<T> Parsed<T> {
    /// The same result, with its position held at or after `start`.
    pub open spec fn since(self, start: Cursor) -> Parsed<T> {
        Parsed {
            outcome: self.outcome,
            cursor: Cursor {
                position: if self.cursor.position < start.position {
                    start.position
                } else {
                    self.cursor.position
                },
                reports: self.cursor.reports,
            },
        }
    }
}

/// A run of statements, and the cursor after them.
pub struct Gathered {
    pub statements: Seq<StmtView>,
    pub cursor: Cursor,
}

/// A token sequence the parser accepts: not empty, and ending in
/// `EndOfFile`.
pub open spec fn terminated(tokens: Seq<Token>) -> bool {
    tokens.len() > 0 && tokens.last().token_type == TokenType::EndOfFile
}

/// The number of tokens from `position` on.
pub open spec fn remaining(tokens: Seq<Token>, position: nat) -> nat {
    if position < tokens.len() {
        (tokens.len() - position) as nat
    } else {
        0
    }
}

/// The kind of the token at `position`; `EndOfFile` past the end.
pub open spec fn kind_at(tokens: Seq<Token>, position: nat) -> TokenType {
    if position < tokens.len() {
        tokens[position as int].token_type
    } else {
        TokenType::EndOfFile
    }
}

/// Whether the parser has reached the end of input.
pub open spec fn at_end(tokens: Seq<Token>, position: nat) -> bool {
    kind_at(tokens, position) == TokenType::EndOfFile
}

/// Whether the next token is of `kind`; never so at the end of input.
pub open spec fn check(tokens: Seq<Token>, position: nat, kind: TokenType) -> bool {
    !at_end(tokens, position) && kind_at(tokens, position) == kind
}

/// One token further on, unless at the end of input.
pub open spec fn advance(tokens: Seq<Token>, c: Cursor) -> Cursor {
    if at_end(tokens, c.position) {
        c
    } else {
        c.step()
    }
}

/// A failure reported at the span of the next token.
pub open spec fn fail<T>(tokens: Seq<Token>, c: Cursor, message: Seq<char>) -> Parsed<T> {
    Parsed {
        outcome: Err(message),
        cursor: c.report(
            report_line(tokens[c.position as int].span, Seq::<char>::empty(), message),
        ),
    }
}

/// A remark about the next token that does not stop the parse.
pub open spec fn remark(tokens: Seq<Token>, c: Cursor, message: Seq<char>) -> Cursor {
    c.report(
        report_line(
            tokens[c.position as int].span,
            location_of(tokens[c.position as int]),
            message,
        ),
    )
}

/// Takes the next token if it is of `kind`, and fails with `message`
/// otherwise.
pub open spec fn consume(tokens: Seq<Token>, c: Cursor, kind: TokenType, message: Seq<char>)
    -> Parsed<Token> {
    if check(tokens, c.position, kind) {
        Parsed { outcome: Ok(tokens[c.position as int]), cursor: c.step() }
    } else {
        fail(tokens, c, message)
    }
}

/// The most arguments or parameters a call or declaration may have without
/// a remark.
pub open spec fn limit() -> nat {
    255
}

/// Whether `kind` is an operator of the binary layer `level`: 0 is `or`,
/// 1 `and`, 2 equality, 3 comparison, 4 additive, 5 multiplicative.
pub open spec fn level_has(level: nat, kind: TokenType) -> bool {
    if level == 0 {
        kind == TokenType::Or
    } else if level == 1 {
        kind == TokenType::And
    } else if level == 2 {
        kind == TokenType::BangEqual || kind == TokenType::EqualEqual
    } else if level == 3 {
        kind == TokenType::Greater || kind == TokenType::GreaterEqual || kind == TokenType::Less
            || kind == TokenType::LessEqual
    } else if level == 4 {
        kind == TokenType::Minus || kind == TokenType::Plus || kind == TokenType::TextConcat
    } else {
        kind == TokenType::Slash || kind == TokenType::Star
    }
}

/// The node that joins two operands at `level`: short-circuiting for `or`
/// and `and`, an ordinary binary node above them.
pub open spec fn join(level: nat, left: ExprView, operator: Token, right: ExprView) -> ExprView {
    if level < 2 {
        ExprView::Logical(Box::new(left), operator, Box::new(right))
    } else {
        ExprView::Binary(Box::new(left), operator, Box::new(right))
    }
}

/// The place of the binary layer `level` in the order of the recursion.
pub open spec fn binary_rank(level: nat) -> nat {
    if level >= 5 {
        4
    } else {
        (4 + 2 * (5 - level)) as nat
    }
}

/// Whether a statement may start with `kind`, so that recovery stops
/// before it.
pub open spec fn starts_statement(kind: TokenType) -> bool {
    kind == TokenType::Function || kind == TokenType::Var || kind == TokenType::If || kind
        == TokenType::While || kind == TokenType::Print || kind == TokenType::Return
}

/// The loop of a `for`, written out: the body followed by the increment,
/// under a `while` on the condition, after the initializer.
pub open spec fn desugar_for(
    initializer: Option<StmtView>,
    condition: ExprView,
    increment: Option<ExprView>,
    body: StmtView,
) -> StmtView {
    let repeated = match increment {
        Some(inc) => StmtView::Block(seq![body, StmtView::Expression(inc)]),
        None => body,
    };
    let looped = StmtView::While(condition, Box::new(repeated));
    match initializer {
        Some(init) => StmtView::Block(seq![init, looped]),
        None => looped,
    }
}

/// The value of an optional sub-parse whose failure is reported and then
/// passed over.
pub open spec fn tolerated<T>(p: Parsed<T>) -> Option<T> {
    match p.outcome {
        Ok(v) => Some(v),
        Err(_) => None,
    }
}

/// An expression in parentheses, from just after the opening one.
pub open spec fn grouping(tokens: Seq<Token>, c: Cursor) -> Parsed<ExprView>
    decreases remaining(tokens, c.position), 17nat,
{
    let inner = expression(tokens, c).since(c);
    match inner.outcome {
        Err(m) => Parsed { outcome: Err(m), cursor: inner.cursor },
        Ok(e) => {
            let close = consume(
                tokens,
                inner.cursor,
                TokenType::RightParen,
                "Expected a right hand `🫲` after expression"@,
            );
            match close.outcome {
                Err(m) => Parsed { outcome: Err(m), cursor: close.cursor },
                Ok(_) => Parsed {
                    outcome: Ok(ExprView::Grouping(Box::new(e))),
                    cursor: close.cursor,
                },
            }
        },
    }
}

/// A literal, a name, or an expression in parentheses.
pub open spec fn primary(tokens: Seq<Token>, c: Cursor) -> Parsed<ExprView>
    decreases remaining(tokens, c.position), 0nat,
{
    if check(tokens, c.position, TokenType::False) {
        Parsed { outcome: Ok(ExprView::Literal(ValueView::Boolean(false))), cursor: c.step() }
    } else if check(tokens, c.position, TokenType::True) {
        Parsed { outcome: Ok(ExprView::Literal(ValueView::Boolean(true))), cursor: c.step() }
    } else if check(tokens, c.position, TokenType::Nil) {
        Parsed { outcome: Ok(ExprView::Literal(ValueView::Nil)), cursor: c.step() }
    } else if check(tokens, c.position, TokenType::Number) || check(
        tokens,
        c.position,
        TokenType::Text,
    ) {
        Parsed {
            outcome: Ok(ExprView::Literal(literal_of(tokens[c.position as int].value))),
            cursor: c.step(),
        }
    } else if check(tokens, c.position, TokenType::Identifier) {
        Parsed { outcome: Ok(ExprView::Variable(tokens[c.position as int])), cursor: c.step() }
    } else if check(tokens, c.position, TokenType::LeftParen) {
        grouping(tokens, c.step())
    } else {
        fail(tokens, c, "Parse error in primary"@)
    }
}

/// The arguments of a call from the first on, up to but not including the
/// closing parenthesis. `collected` holds those already parsed.
pub open spec fn arguments(tokens: Seq<Token>, c: Cursor, collected: Seq<ExprView>) -> Parsed<
    Seq<ExprView>,
>
    decreases remaining(tokens, c.position), 17nat,
{
    let noted = if collected.len() >= limit() {
        remark(tokens, c, "Can't have more than 255 arguments"@)
    } else {
        c
    };
    let argument = expression(tokens, noted).since(noted);
    match argument.outcome {
        Err(m) => Parsed { outcome: Err(m), cursor: argument.cursor },
        Ok(e) => if check(tokens, argument.cursor.position, TokenType::Comma) {
            arguments(tokens, argument.cursor.step(), collected.push(e))
        } else {
            Parsed { outcome: Ok(collected.push(e)), cursor: argument.cursor }
        },
    }
}

/// A call of `callee`, from just after its opening parenthesis.
pub open spec fn finish_call(tokens: Seq<Token>, c: Cursor, callee: ExprView) -> Parsed<ExprView>
    decreases remaining(tokens, c.position), 18nat,
{
    let list = if check(tokens, c.position, TokenType::RightParen) {
        Parsed { outcome: Ok(Seq::<ExprView>::empty()), cursor: c }
    } else {
        arguments(tokens, c, Seq::<ExprView>::empty()).since(c)
    };
    match list.outcome {
        Err(m) => Parsed { outcome: Err(m), cursor: list.cursor },
        Ok(args) => {
            let paren = consume(
                tokens,
                list.cursor,
                TokenType::RightParen,
                "Expected a right hand `🫲` after arguments"@,
            );
            match paren.outcome {
                Err(m) => Parsed { outcome: Err(m), cursor: paren.cursor },
                Ok(t) => Parsed {
                    outcome: Ok(ExprView::Call(Box::new(callee), t, args)),
                    cursor: paren.cursor,
                },
            }
        },
    }
}

/// The argument lists that follow `callee`, each applied to what stands
/// before it.
pub open spec fn call_rest(tokens: Seq<Token>, c: Cursor, callee: ExprView) -> Parsed<ExprView>
    decreases remaining(tokens, c.position), 0nat,
{
    if check(tokens, c.position, TokenType::LeftParen) {
        let applied = finish_call(tokens, c.step(), callee).since(c.step());
        match applied.outcome {
            Err(m) => applied,
            Ok(e) => call_rest(tokens, applied.cursor, e),
        }
    } else {
        Parsed { outcome: Ok(callee), cursor: c }
    }
}

/// A primary followed by any number of argument lists.
pub open spec fn call(tokens: Seq<Token>, c: Cursor) -> Parsed<ExprView>
    decreases remaining(tokens, c.position), 1nat,
{
    let callee = primary(tokens, c).since(c);
    match callee.outcome {
        Err(m) => callee,
        Ok(e) => call_rest(tokens, callee.cursor, e),
    }
}

/// A prefix `!` or `-` applied to a unary, or a call.
pub open spec fn unary(tokens: Seq<Token>, c: Cursor) -> Parsed<ExprView>
    decreases remaining(tokens, c.position), 2nat,
{
    if check(tokens, c.position, TokenType::Bang) || check(
        tokens,
        c.position,
        TokenType::Minus,
    ) {
        let right = unary(tokens, c.step());
        match right.outcome {
            Err(m) => right,
            Ok(e) => Parsed {
                outcome: Ok(ExprView::Unary(tokens[c.position as int], Box::new(e))),
                cursor: right.cursor,
            },
        }
    } else {
        call(tokens, c)
    }
}

/// An operand of the binary layer `level`: the next tighter layer.
pub open spec fn operand(tokens: Seq<Token>, c: Cursor, level: nat) -> Parsed<ExprView>
    decreases remaining(tokens, c.position), (binary_rank(level) - 1) as nat,
{
    if level >= 5 {
        unary(tokens, c)
    } else {
        binary(tokens, c, level + 1)
    }
}

/// The operators and operands of layer `level` that follow `left`, joined
/// to it from the left.
pub open spec fn binary_rest(tokens: Seq<Token>, c: Cursor, level: nat, left: ExprView) -> Parsed<
    ExprView,
>
    decreases remaining(tokens, c.position), 0nat,
{
    if !at_end(tokens, c.position) && level_has(level, kind_at(tokens, c.position)) {
        let right = operand(tokens, c.step(), level).since(c.step());
        match right.outcome {
            Err(m) => right,
            Ok(r) => binary_rest(
                tokens,
                right.cursor,
                level,
                join(level, left, tokens[c.position as int], r),
            ),
        }
    } else {
        Parsed { outcome: Ok(left), cursor: c }
    }
}

/// An expression of the binary layer `level`.
pub open spec fn binary(tokens: Seq<Token>, c: Cursor, level: nat) -> Parsed<ExprView>
    decreases remaining(tokens, c.position), binary_rank(level),
{
    let left = operand(tokens, c, level).since(c);
    match left.outcome {
        Err(m) => left,
        Ok(e) => binary_rest(tokens, left.cursor, level, e),
    }
}

/// An `or` expression, optionally assigned to: only a name may stand on
/// the left of `=`.
pub open spec fn assignment(tokens: Seq<Token>, c: Cursor) -> Parsed<ExprView>
    decreases remaining(tokens, c.position), 15nat,
{
    let target = binary(tokens, c, 0).since(c);
    match target.outcome {
        Err(m) => target,
        Ok(e) => if check(tokens, target.cursor.position, TokenType::Equal) {
            let equals = tokens[target.cursor.position as int];
            let value = assignment(tokens, target.cursor.step());
            match value.outcome {
                Err(m) => value,
                Ok(v) => match e {
                    ExprView::Variable(name) => Parsed {
                        outcome: Ok(ExprView::Assign(name, Box::new(v))),
                        cursor: value.cursor,
                    },
                    _ => Parsed {
                        outcome: Err("Invalid assignment target"@),
                        cursor: value.cursor.report(
                            report_line(
                                equals.span,
                                Seq::<char>::empty(),
                                "Invalid assignment target"@,
                            ),
                        ),
                    },
                },
            }
        } else {
            target
        },
    }
}

/// An expression.
pub open spec fn expression(tokens: Seq<Token>, c: Cursor) -> Parsed<ExprView>
    decreases remaining(tokens, c.position), 16nat,
{
    assignment(tokens, c)
}

/// An expression and its terminator, made into a statement by `wrap`.
pub open spec fn terminated_expression(
    tokens: Seq<Token>,
    c: Cursor,
    wrap: spec_fn(ExprView) -> StmtView,
) -> Parsed<StmtView>
    decreases remaining(tokens, c.position), 17nat,
{
    let value = expression(tokens, c).since(c);
    match value.outcome {
        Err(m) => Parsed { outcome: Err(m), cursor: value.cursor },
        Ok(e) => {
            let end = consume(
                tokens,
                value.cursor,
                TokenType::EndOfExpression,
                "Expected '✊' after value"@,
            );
            match end.outcome {
                Err(m) => Parsed { outcome: Err(m), cursor: end.cursor },
                Ok(_) => Parsed { outcome: Ok(wrap(e)), cursor: end.cursor },
            }
        },
    }
}

/// An expression statement.
pub open spec fn expression_statement(tokens: Seq<Token>, c: Cursor) -> Parsed<StmtView>
    decreases remaining(tokens, c.position), 18nat,
{
    terminated_expression(tokens, c, |e: ExprView| StmtView::Expression(e))
}

/// A `print` statement, from just after its keyword.
pub open spec fn print_statement(tokens: Seq<Token>, c: Cursor) -> Parsed<StmtView>
    decreases remaining(tokens, c.position), 18nat,
{
    terminated_expression(tokens, c, |e: ExprView| StmtView::Print(e))
}

/// A `return` statement, from just after `keyword`.
pub open spec fn return_statement(tokens: Seq<Token>, c: Cursor, keyword: Token) -> Parsed<
    StmtView,
>
    decreases remaining(tokens, c.position), 18nat,
{
    let value = if !check(tokens, c.position, TokenType::EndOfExpression) {
        expression(tokens, c).since(c)
    } else {
        Parsed { outcome: Err(Seq::<char>::empty()), cursor: c }
    };
    let end = consume(
        tokens,
        value.cursor,
        TokenType::EndOfExpression,
        "Expected '✊' after return value"@,
    );
    match end.outcome {
        Err(m) => Parsed { outcome: Err(m), cursor: end.cursor },
        Ok(_) => Parsed {
            outcome: Ok(StmtView::Return(keyword, tolerated(value))),
            cursor: end.cursor,
        },
    }
}

/// A variable declaration, from just after its keyword.
pub open spec fn var_declaration(tokens: Seq<Token>, c: Cursor) -> Parsed<StmtView>
    decreases remaining(tokens, c.position), 18nat,
{
    let name = consume(tokens, c, TokenType::Identifier, "Expected a variable name"@);
    match name.outcome {
        Err(m) => Parsed { outcome: Err(m), cursor: name.cursor },
        Ok(n) => {
            let initializer = if check(tokens, name.cursor.position, TokenType::Equal) {
                expression(tokens, name.cursor.step()).since(name.cursor.step())
            } else {
                Parsed { outcome: Err(Seq::<char>::empty()), cursor: name.cursor }
            };
            let end = consume(
                tokens,
                initializer.cursor,
                TokenType::EndOfExpression,
                "Expected '✊' at the end of variable declaration"@,
            );
            match end.outcome {
                Err(m) => Parsed { outcome: Err(m), cursor: end.cursor },
                Ok(_) => Parsed {
                    outcome: Ok(StmtView::Var(n, tolerated(initializer))),
                    cursor: end.cursor,
                },
            }
        },
    }
}

/// A condition in parentheses and the statement it governs; `if_` tells an
/// `if`, which may have an `else`, from a `while`.
pub open spec fn conditional(tokens: Seq<Token>, c: Cursor, if_: bool) -> Parsed<StmtView>
    decreases remaining(tokens, c.position), 18nat,
{
    let open = consume(
        tokens,
        c,
        TokenType::LeftParen,
        if if_ {
            "Expected '🫱' after '🤔'"@
        } else {
            "Expected '🫱' after '🌀'"@
        },
    );
    match open.outcome {
        Err(m) => Parsed { outcome: Err(m), cursor: open.cursor },
        Ok(_) => {
            let condition = expression(tokens, open.cursor).since(open.cursor);
            match condition.outcome {
                Err(m) => Parsed { outcome: Err(m), cursor: condition.cursor },
                Ok(test) => {
                    let close = consume(
                        tokens,
                        condition.cursor,
                        TokenType::RightParen,
                        if if_ {
                            "Expected '🫲' after '🤔' condition"@
                        } else {
                            "Expected '🫲' after '🌀' condition"@
                        },
                    );
                    match close.outcome {
                        Err(m) => Parsed { outcome: Err(m), cursor: close.cursor },
                        Ok(_) => {
                            let body = statement(tokens, close.cursor).since(close.cursor);
                            match body.outcome {
                                Err(m) => body,
                                Ok(then_branch) => if !if_ {
                                    Parsed {
                                        outcome: Ok(
                                            StmtView::While(test, Box::new(then_branch)),
                                        ),
                                        cursor: body.cursor,
                                    }
                                } else if check(tokens, body.cursor.position, TokenType::Else) {
                                    let other = statement(tokens, body.cursor.step());
                                    Parsed {
                                        outcome: Ok(
                                            StmtView::If(
                                                test,
                                                Box::new(then_branch),
                                                match other.outcome {
                                                    Ok(s) => Some(Box::new(s)),
                                                    Err(_) => None,
                                                },
                                            ),
                                        ),
                                        cursor: other.cursor,
                                    }
                                } else {
                                    Parsed {
                                        outcome: Ok(
                                            StmtView::If(test, Box::new(then_branch), None),
                                        ),
                                        cursor: body.cursor,
                                    }
                                },
                            }
                        },
                    }
                },
            }
        },
    }
}

/// An `if` statement, from just after its keyword.
pub open spec fn if_statement(tokens: Seq<Token>, c: Cursor) -> Parsed<StmtView> {
    conditional(tokens, c, true)
}

/// A `while` statement, from just after its keyword.
pub open spec fn while_statement(tokens: Seq<Token>, c: Cursor) -> Parsed<StmtView> {
    conditional(tokens, c, false)
}

/// The first clause of a `for`: nothing, a declaration, or an expression
/// statement; a failure in it is reported and passed over.
pub open spec fn for_initializer(tokens: Seq<Token>, c: Cursor) -> Parsed<StmtView>
    decreases remaining(tokens, c.position), 19nat,
{
    if check(tokens, c.position, TokenType::EndOfExpression) {
        Parsed { outcome: Err(Seq::<char>::empty()), cursor: c.step() }
    } else if check(tokens, c.position, TokenType::Var) {
        var_declaration(tokens, c.step()).since(c.step())
    } else {
        expression_statement(tokens, c).since(c)
    }
}

/// A `for` statement, from just after its keyword, as the `while` loop it
/// stands for.
pub open spec fn for_statement(tokens: Seq<Token>, c: Cursor) -> Parsed<StmtView>
    decreases remaining(tokens, c.position), 18nat,
{
    let open = consume(tokens, c, TokenType::LeftParen, "Expected '🫱' after '⏳'"@);
    match open.outcome {
        Err(m) => Parsed { outcome: Err(m), cursor: open.cursor },
        Ok(_) => {
            let initializer = for_initializer(tokens, open.cursor).since(open.cursor);
            let condition = if check(
                tokens,
                initializer.cursor.position,
                TokenType::EndOfExpression,
            ) {
                Parsed {
                    outcome: Ok(ExprView::Literal(ValueView::Boolean(true))),
                    cursor: initializer.cursor,
                }
            } else {
                expression(tokens, initializer.cursor).since(initializer.cursor)
            };
            match condition.outcome {
                Err(m) => Parsed { outcome: Err(m), cursor: condition.cursor },
                Ok(test) => {
                    let semicolon = consume(
                        tokens,
                        condition.cursor,
                        TokenType::EndOfExpression,
                        "Expected '✊' after '⏳' loop condition"@,
                    );
                    match semicolon.outcome {
                        Err(m) => Parsed { outcome: Err(m), cursor: semicolon.cursor },
                        Ok(_) => {
                            let increment = if !check(
                                tokens,
                                semicolon.cursor.position,
                                TokenType::RightParen,
                            ) {
                                expression(tokens, semicolon.cursor).since(semicolon.cursor)
                            } else {
                                Parsed {
                                    outcome: Err(Seq::<char>::empty()),
                                    cursor: semicolon.cursor,
                                }
                            };
                            let close = consume(
                                tokens,
                                increment.cursor,
                                TokenType::RightParen,
                                "Expected '🫲' after '⏳' clause"@,
                            );
                            match close.outcome {
                                Err(m) => Parsed { outcome: Err(m), cursor: close.cursor },
                                Ok(_) => {
                                    let body = statement(tokens, close.cursor);
                                    match body.outcome {
                                        Err(m) => body,
                                        Ok(b) => Parsed {
                                            outcome: Ok(
                                                desugar_for(
                                                    tolerated(initializer),
                                                    test,
                                                    tolerated(increment),
                                                    b,
                                                ),
                                            ),
                                            cursor: body.cursor,
                                        },
                                    }
                                },
                            }
                        },
                    }
                },
            }
        },
    }
}

/// The declarations of a block up to its closing brace or the end of
/// input, after those in `collected`.
pub open spec fn block_rest(tokens: Seq<Token>, c: Cursor, collected: Seq<StmtView>) -> Gathered
    decreases remaining(tokens, c.position), 22nat,
{
    if !check(tokens, c.position, TokenType::RightCurlyBrace) && !at_end(tokens, c.position) {
        let next = declaration(tokens, c);
        let gathered = match next.outcome {
            Ok(s) => collected.push(s),
            Err(_) => collected,
        };
        if next.cursor.position > c.position {
            block_rest(tokens, next.cursor, gathered)
        } else {
            Gathered { statements: gathered, cursor: next.cursor }
        }
    } else {
        Gathered { statements: collected, cursor: c }
    }
}

/// The statements of a block, from just after its opening brace, through
/// its closing brace.
pub open spec fn block(tokens: Seq<Token>, c: Cursor) -> Parsed<Seq<StmtView>>
    decreases remaining(tokens, c.position), 23nat,
{
    let body = block_rest(tokens, c, Seq::<StmtView>::empty());
    let close = consume(
        tokens,
        body.cursor,
        TokenType::RightCurlyBrace,
        "Expected '🫷' after block"@,
    );
    match close.outcome {
        Err(m) => Parsed { outcome: Err(m), cursor: close.cursor },
        Ok(_) => Parsed { outcome: Ok(body.statements), cursor: close.cursor },
    }
}

/// A block statement, from just after its opening brace.
pub open spec fn block_statement(tokens: Seq<Token>, c: Cursor) -> Parsed<StmtView>
    decreases remaining(tokens, c.position), 24nat,
{
    let body = block(tokens, c);
    match body.outcome {
        Err(m) => Parsed { outcome: Err(m), cursor: body.cursor },
        Ok(stmts) => Parsed { outcome: Ok(StmtView::Block(stmts)), cursor: body.cursor },
    }
}

/// The parameters that follow the first, each after a comma.
pub open spec fn parameters_rest(tokens: Seq<Token>, c: Cursor, collected: Seq<Token>) -> Parsed<
    Seq<Token>,
>
    decreases remaining(tokens, c.position), 0nat,
{
    if check(tokens, c.position, TokenType::Comma) {
        let noted = if collected.len() >= limit() {
            remark(tokens, c.step(), "Can't have more than 255 params"@)
        } else {
            c.step()
        };
        let name = consume(tokens, noted, TokenType::Identifier, "Expected parameter name"@);
        match name.outcome {
            Err(m) => Parsed { outcome: Err(m), cursor: name.cursor },
            Ok(n) => parameters_rest(tokens, name.cursor, collected.push(n)),
        }
    } else {
        Parsed { outcome: Ok(collected), cursor: c }
    }
}

/// The parameter list of a declaration, from just after its opening
/// parenthesis, up to but not including the closing one.
pub open spec fn parameters(tokens: Seq<Token>, c: Cursor) -> Parsed<Seq<Token>> {
    if !check(tokens, c.position, TokenType::RightParen) {
        let first = consume(tokens, c, TokenType::Identifier, "Expected parameter name"@);
        match first.outcome {
            Err(m) => Parsed { outcome: Err(m), cursor: first.cursor },
            Ok(n) => parameters_rest(tokens, first.cursor, seq![n]),
        }
    } else {
        Parsed { outcome: Ok(Seq::<Token>::empty()), cursor: c }
    }
}

/// A function declaration, from just after its keyword; `kind` names what
/// is declared in the messages.
pub open spec fn function(tokens: Seq<Token>, c: Cursor, kind: Seq<char>) -> Parsed<StmtView>
    decreases remaining(tokens, c.position), 18nat,
{
    let name = consume(tokens, c, TokenType::Identifier, "Expected "@ + kind + " name"@);
    match name.outcome {
        Err(m) => Parsed { outcome: Err(m), cursor: name.cursor },
        Ok(n) => {
            let open = consume(
                tokens,
                name.cursor,
                TokenType::LeftParen,
                "Expected '🫱' after "@ + kind + " name"@,
            );
            match open.outcome {
                Err(m) => Parsed { outcome: Err(m), cursor: open.cursor },
                Ok(_) => {
                    let params = parameters(tokens, open.cursor).since(open.cursor);
                    match params.outcome {
                        Err(m) => Parsed { outcome: Err(m), cursor: params.cursor },
                        Ok(ps) => {
                            let close = consume(
                                tokens,
                                params.cursor,
                                TokenType::RightParen,
                                "Expected '🫲' after params"@,
                            );
                            match close.outcome {
                                Err(m) => Parsed { outcome: Err(m), cursor: close.cursor },
                                Ok(_) => {
                                    let brace = consume(
                                        tokens,
                                        close.cursor,
                                        TokenType::LeftCurlyBrace,
                                        "Expected '🫸' before "@ + kind + " body"@,
                                    );
                                    match brace.outcome {
                                        Err(m) => Parsed { outcome: Err(m), cursor: brace.cursor },
                                        Ok(_) => {
                                            let body = block(tokens, brace.cursor);
                                            match body.outcome {
                                                Err(m) => Parsed {
                                                    outcome: Err(m),
                                                    cursor: body.cursor,
                                                },
                                                Ok(stmts) => Parsed {
                                                    outcome: Ok(StmtView::Func(n, ps, stmts)),
                                                    cursor: body.cursor,
                                                },
                                            }
                                        },
                                    }
                                },
                            }
                        },
                    }
                },
            }
        },
    }
}

/// A statement: `for`, `if`, `print`, `return`, `while`, a block, or an
/// expression statement.
pub open spec fn statement(tokens: Seq<Token>, c: Cursor) -> Parsed<StmtView>
    decreases remaining(tokens, c.position), 19nat,
{
    if check(tokens, c.position, TokenType::For) {
        for_statement(tokens, c.step())
    } else if check(tokens, c.position, TokenType::If) {
        conditional(tokens, c.step(), true)
    } else if check(tokens, c.position, TokenType::Print) {
        print_statement(tokens, c.step())
    } else if check(tokens, c.position, TokenType::Return) {
        return_statement(tokens, c.step(), tokens[c.position as int])
    } else if check(tokens, c.position, TokenType::While) {
        conditional(tokens, c.step(), false)
    } else if check(tokens, c.position, TokenType::LeftCurlyBrace) {
        block_statement(tokens, c.step())
    } else {
        expression_statement(tokens, c)
    }
}

/// The tokens passed over after a failure: at least one, then up to the
/// first that follows a terminator or may start a statement.
#[verifier::opaque]
pub open spec fn skip(tokens: Seq<Token>, c: Cursor) -> Cursor
    decreases remaining(tokens, c.position),
{
    if at_end(tokens, c.position) {
        c
    } else if c.position >= 1 && kind_at(tokens, (c.position - 1) as nat)
        == TokenType::EndOfExpression {
        c
    } else if starts_statement(kind_at(tokens, c.position)) {
        c
    } else {
        skip(tokens, c.step())
    }
}

/// Where parsing resumes after a failure that left the cursor at `c`.
pub open spec fn synchronize(tokens: Seq<Token>, c: Cursor) -> Cursor {
    skip(tokens, advance(tokens, c))
}

/// A function declaration, a variable declaration or a statement.
pub open spec fn attempt(tokens: Seq<Token>, c: Cursor) -> Parsed<StmtView>
    decreases remaining(tokens, c.position), 20nat,
{
    if check(tokens, c.position, TokenType::Function) {
        function(tokens, c.step(), "function"@)
    } else if check(tokens, c.position, TokenType::Var) {
        var_declaration(tokens, c.step())
    } else {
        statement(tokens, c)
    }
}

/// One declaration. Where it fails, the failure is reported, the parser
/// synchronizes, and the declaration yields nothing.
pub open spec fn declaration(tokens: Seq<Token>, c: Cursor) -> Parsed<StmtView>
    decreases remaining(tokens, c.position), 21nat,
{
    let tried = attempt(tokens, c);
    match tried.outcome {
        Ok(s) => tried,
        Err(m) => Parsed { outcome: Err(m), cursor: synchronize(tokens, tried.cursor) },
    }
}

/// The declarations up to the end of input, after those in `collected`.
pub open spec fn program_rest(tokens: Seq<Token>, c: Cursor, collected: Seq<StmtView>) -> Gathered
    decreases remaining(tokens, c.position), 22nat,
{
    if !at_end(tokens, c.position) {
        let next = declaration(tokens, c);
        let gathered = match next.outcome {
            Ok(s) => collected.push(s),
            Err(_) => collected,
        };
        if next.cursor.position > c.position {
            program_rest(tokens, next.cursor, gathered)
        } else {
            Gathered { statements: gathered, cursor: next.cursor }
        }
    } else {
        Gathered { statements: collected, cursor: c }
    }
}

/// The statements of a whole program: every declaration that parsed, in
/// order.
pub open spec fn program(tokens: Seq<Token>, c: Cursor) -> Gathered {
    program_rest(tokens, c, Seq::<StmtView>::empty())
}

} // verus!
