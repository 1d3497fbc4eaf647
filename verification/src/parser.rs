//! The recursive-descent parser.
//!
//! Every method here computes what the function of the same name in
//! [`crate::grammar`] says: the same tree, the same position, the same
//! reported lines. A failure inside one declaration is reported, the parser
//! skips to the next statement boundary, and parsing goes on.

use crate::ast::{
    expr_option_view, exprs_view, stmt_option_view, stmts_view, Expr, ExprView, Stmt, StmtView,
};
use crate::error::{error_at, error_at_token, Diagnostics, ParseError};
use crate::grammar;
use crate::grammar::{Cursor, Parsed};
use crate::token::{Token, TokenType, Value};
use vstd::prelude::*;
use vstd::string::StringExecFns;

verus! {

/// A parser over a token sequence that ends in `EndOfFile`.
pub struct Parser {
    tokens: Vec<Token>,
    current: usize,
    diagnostics: Diagnostics,
}

/// Whether an expression result is the one the grammar gives.
pub open spec fn expr_agrees(result: Result<Expr, ParseError>, expected: Result<ExprView, Seq<char>>)
    -> bool {
    match (result, expected) {
        (Ok(e), Ok(v)) => e@ == v,
        (Err(e), Err(m)) => e.message@ == m,
        _ => false,
    }
}

/// Whether a statement result is the one the grammar gives.
pub open spec fn stmt_agrees(result: Result<Stmt, ParseError>, expected: Result<StmtView, Seq<char>>)
    -> bool {
    match (result, expected) {
        (Ok(s), Ok(v)) => s@ == v,
        (Err(e), Err(m)) => e.message@ == m,
        _ => false,
    }
}

/// Whether a token result is the one the grammar gives.
pub open spec fn token_agrees(result: Result<Token, ParseError>, expected: Result<Token, Seq<char>>)
    -> bool {
    match (result, expected) {
        (Ok(t), Ok(v)) => t == v,
        (Err(e), Err(m)) => e.message@ == m,
        _ => false,
    }
}

/// Whether an optional sub-parse gave what the grammar gives, a failure
/// counting as nothing.
pub open spec fn expr_tolerated(result: Option<Expr>, expected: Parsed<ExprView>) -> bool {
    expr_option_view(result) == grammar::tolerated(expected)
}

/// The `while` loop that a `for` with these parts stands for.
pub fn desugar_for(
    initializer: Option<Stmt>,
    condition: Expr,
    increment: Option<Expr>,
    body: Stmt,
) -> (stmt: Stmt)
    ensures
        stmt@ == grammar::desugar_for(
            stmt_option_view(initializer),
            condition@,
            expr_option_view(increment),
            body@,
        ),
{
    let repeated = match increment {
        Some(inc) => {
            let step = Stmt::expression(inc);
            let parts = vec![body, step];
            assert(stmts_view(parts@) =~= seq![body@, step@]);
            Stmt::block(parts)
        },
        None => body,
    };
    let looped = Stmt::while_(condition, repeated);
    match initializer {
        Some(init) => {
            let parts = vec![init, looped];
            assert(stmts_view(parts@) =~= seq![init@, looped@]);
            Stmt::block(parts)
        },
        None => looped,
    }
}

/// Whether `tokens` is not empty and ends in `EndOfFile`.
pub fn is_terminated(tokens: &Vec<Token>) -> (ok: bool)
    ensures
        ok == grammar::terminated(tokens@),
{
    tokens.len() > 0 && tokens[tokens.len() - 1].token_type == TokenType::EndOfFile
}

impl Parser {
    /// The tokens being parsed.
    pub closed spec fn tokens(&self) -> Seq<Token> {
        self.tokens@
    }

    /// The position of the next token, and the lines reported so far.
    pub closed spec fn cursor(&self) -> Cursor {
        Cursor { position: self.current as nat, reports: self.diagnostics.lines() }
    }

    /// The parser's invariant: the tokens end in `EndOfFile`, the
    /// position is that of one of them, and the error flag is up exactly
    /// if something has been reported.
    pub closed spec fn wf(&self) -> bool {
        &&& grammar::terminated(self.tokens@)
        &&& self.current < self.tokens@.len()
        &&& self.diagnostics.flagged() == (self.diagnostics.lines().len() > 0)
    }

    /// Whether `self` is `before` after a parse step that left `cursor`.
    pub closed spec fn follows(&self, before: &Parser, cursor: Cursor) -> bool {
        &&& self.wf()
        &&& self.tokens == before.tokens
        &&& self.cursor() == cursor
        &&& self.current >= before.current
    }

    /// A parser at the first of `tokens`, with nothing reported.
    pub fn new(tokens: Vec<Token>) -> (parser: Self)
        requires
            grammar::terminated(tokens@),
        ensures
            parser.wf(),
            parser.tokens() == tokens@,
            parser.cursor() == (Cursor { position: 0, reports: Seq::empty() }),
    {
        Self { tokens, current: 0, diagnostics: Diagnostics::new() }
    }

    /// What has been reported so far. The error flag is up exactly if
    /// something has been.
    pub fn diagnostics(&self) -> (diagnostics: &Diagnostics)
        ensures
            diagnostics.lines() == self.cursor().reports,
            self.wf() ==> diagnostics.flagged() == (self.cursor().reports.len() > 0),
    {
        &self.diagnostics
    }

    fn peek(&self) -> (token: &Token)
        requires
            self.wf(),
        ensures
            *token == self.tokens@[self.current as int],
    {
        &self.tokens[self.current]
    }

    fn previous(&self) -> (token: Token)
        requires
            self.wf(),
            self.current >= 1,
        ensures
            token == self.tokens@[self.current - 1],
    {
        self.tokens[self.current - 1].clone()
    }

    fn is_at_end(&self) -> (end: bool)
        requires
            self.wf(),
        ensures
            end == grammar::at_end(self.tokens@, self.current as nat),
    {
        self.peek().token_type == TokenType::EndOfFile
    }

    fn check(&self, token_type: TokenType) -> (found: bool)
        requires
            self.wf(),
        ensures
            found == grammar::check(self.tokens@, self.current as nat, token_type),
    {
        if self.is_at_end() {
            false
        } else {
            self.peek().token_type == token_type
        }
    }

    fn advance(&mut self) -> (token: Token)
        requires
            old(self).wf(),
            !grammar::at_end(old(self).tokens@, old(self).current as nat) || old(self).current >= 1,
        ensures
            final(self).follows(old(self), grammar::advance(old(self).tokens@, old(self).cursor())),
            final(self).current >= 1,
            token == final(self).tokens@[final(self).current - 1],
    {
        if !self.is_at_end() {
            assert(self.current < self.tokens.len());
            self.current += 1;
        }
        self.previous()
    }

    fn matches(&mut self, token_types: &[TokenType]) -> (matched: bool)
        requires
            old(self).wf(),
        ensures
            matched == (exists|i: int|
                0 <= i < token_types@.len() && grammar::check(
                    old(self).tokens@,
                    old(self).current as nat,
                    #[trigger] token_types@[i],
                )),
            final(self).follows(
                old(self),
                if matched {
                    old(self).cursor().step()
                } else {
                    old(self).cursor()
                },
            ),
    {
        let mut i: usize = 0;
        while i < token_types.len()
            invariant
                i <= token_types@.len(),
                self.wf(),
                *self == *old(self),
                forall|j: int|
                    0 <= j < i ==> !grammar::check(
                        self.tokens@,
                        self.current as nat,
                        #[trigger] token_types@[j],
                    ),
            decreases token_types@.len() - i,
        {
            if self.check(token_types[i]) {
                self.advance();
                return true;
            }
            i += 1;
        }
        false
    }

    fn matches_one(&mut self, token_type: TokenType) -> (matched: bool)
        requires
            old(self).wf(),
        ensures
            matched == grammar::check(old(self).tokens@, old(self).current as nat, token_type),
            final(self).follows(
                old(self),
                if matched {
                    old(self).cursor().step()
                } else {
                    old(self).cursor()
                },
            ),
    {
        if self.check(token_type) {
            self.advance();
            true
        } else {
            false
        }
    }

    fn consume(&mut self, token_type: TokenType, message: &str) -> (result: Result<
        Token,
        ParseError,
    >)
        requires
            old(self).wf(),
        ensures
            final(self).follows(
                old(self),
                grammar::consume(old(self).tokens@, old(self).cursor(), token_type, message@).cursor,
            ),
            token_agrees(
                result,
                grammar::consume(
                    old(self).tokens@,
                    old(self).cursor(),
                    token_type,
                    message@,
                ).outcome,
            ),
    {
        if self.check(token_type) {
            return Ok(self.advance());
        }
        let token = self.peek().clone();
        error_at(&mut self.diagnostics, token, message)
    }

    /// Whether `self` is `before` after a step that gave `result` where
    /// the grammar gives `expected`.
    pub closed spec fn parsed_expr(
        &self,
        before: &Parser,
        result: Result<Expr, ParseError>,
        expected: Parsed<ExprView>,
    ) -> bool {
        &&& self.follows(before, expected.cursor)
        &&& expr_agrees(result, expected.outcome)
        &&& result is Ok ==> self.current > before.current
    }

    /// Whether `self` is `before` after a step that gave `result` where
    /// the grammar gives `expected`.
    pub closed spec fn parsed_stmt(
        &self,
        before: &Parser,
        result: Result<Stmt, ParseError>,
        expected: Parsed<StmtView>,
    ) -> bool {
        &&& self.follows(before, expected.cursor)
        &&& stmt_agrees(result, expected.outcome)
        &&& result is Ok ==> self.current > before.current
    }

    fn literal(&self) -> (expr: Expr)
        requires
            self.wf(),
            self.current >= 1,
        ensures
            expr@ == ExprView::Literal(
                crate::token::literal_of(self.tokens@[self.current - 1].value),
            ),
    {
        let value = match self.previous().value {
            Some(v) => v,
            None => Value::Nil,
        };
        Expr::literal(value)
    }

    #[verifier::spinoff_prover]
    fn primary(&mut self) -> (result: Result<Expr, ParseError>)
        requires
            old(self).wf(),
        ensures
            final(self).parsed_expr(
                old(self),
                result,
                grammar::primary(old(self).tokens@, old(self).cursor()),
            ),
        decreases grammar::remaining(old(self).tokens@, old(self).current as nat), 0nat,
    {
        if self.matches_one(TokenType::False) {
            return Ok(Expr::literal(Value::Boolean(false)));
        }
        if self.matches_one(TokenType::True) {
            return Ok(Expr::literal(Value::Boolean(true)));
        }
        if self.matches_one(TokenType::Nil) {
            return Ok(Expr::literal(Value::Nil));
        }
        if self.matches(&[TokenType::Number, TokenType::Text]) {
            return Ok(self.literal());
        }
        if self.matches_one(TokenType::Identifier) {
            return Ok(Expr::variable(self.previous()));
        }
        if self.matches_one(TokenType::LeftParen) {
            return self.grouping();
        }
        let token = self.peek().clone();
        error_at(&mut self.diagnostics, token, "Parse error in primary")
    }

    fn grouping(&mut self) -> (result: Result<Expr, ParseError>)
        requires
            old(self).wf(),
        ensures
            final(self).parsed_expr(
                old(self),
                result,
                grammar::grouping(old(self).tokens@, old(self).cursor()),
            ),
        decreases grammar::remaining(old(self).tokens@, old(self).current as nat), 24nat,
    {
        let expr = self.expression()?;
        self.consume(TokenType::RightParen, "Expected a right hand `🫲` after expression")?;
        Ok(Expr::grouping(expr))
    }

    #[verifier::spinoff_prover]
    fn finish_call(&mut self, callee: Expr) -> (result: Result<Expr, ParseError>)
        requires
            old(self).wf(),
        ensures
            final(self).parsed_expr(
                old(self),
                result,
                grammar::finish_call(old(self).tokens@, old(self).cursor(), callee@),
            ),
        decreases grammar::remaining(old(self).tokens@, old(self).current as nat), 24nat,
    {
        let mut arguments: Vec<Expr> = Vec::new();
        let mut more = !self.check(TokenType::RightParen);
        let ghost list = if more {
            grammar::arguments(self.tokens@, self.cursor(), Seq::<ExprView>::empty())
        } else {
            Parsed { outcome: Ok(Seq::<ExprView>::empty()), cursor: self.cursor() }
        };
        assert(exprs_view(arguments@) =~= Seq::<ExprView>::empty());
        while more
            invariant
                self.wf(),
                self.tokens == old(self).tokens,
                self.current >= old(self).current,
                more ==> grammar::arguments(self.tokens@, self.cursor(), exprs_view(arguments@))
                    == list,
                !more ==> list == (Parsed {
                    outcome: Ok(exprs_view(arguments@)),
                    cursor: self.cursor(),
                }),
                list == (if grammar::check(
                    old(self).tokens@,
                    old(self).current as nat,
                    TokenType::RightParen,
                ) {
                    Parsed {
                        outcome: Ok(Seq::<ExprView>::empty()),
                        cursor: old(self).cursor(),
                    }
                } else {
                    grammar::arguments(
                        old(self).tokens@,
                        old(self).cursor(),
                        Seq::<ExprView>::empty(),
                    )
                }),
            decreases
                    grammar::remaining(self.tokens@, self.current as nat) + (if more {
                        1nat
                    } else {
                        0nat
                    }),
        {
            if arguments.len() >= 255 {
                error_at_token(
                    &mut self.diagnostics,
                    &self.tokens[self.current],
                    "Can't have more than 255 arguments",
                );
            }
            let argument = self.expression()?;
            proof {
                assert(exprs_view(arguments@.push(argument)) =~= exprs_view(arguments@).push(
                    argument@,
                ));
            }
            arguments.push(argument);
            more = self.matches_one(TokenType::Comma);
        }
        let paren = self.consume(TokenType::RightParen, "Expected a right hand `🫲` after arguments")?;
        Ok(Expr::call(callee, paren, arguments))
    }

    fn call(&mut self) -> (result: Result<Expr, ParseError>)
        requires
            old(self).wf(),
        ensures
            final(self).parsed_expr(
                old(self),
                result,
                grammar::call(old(self).tokens@, old(self).cursor()),
            ),
        decreases grammar::remaining(old(self).tokens@, old(self).current as nat), 1nat,
    {
        let mut expr = self.primary()?;
        while self.matches_one(TokenType::LeftParen)
            invariant
                self.wf(),
                self.tokens == old(self).tokens,
                self.current > old(self).current,
                grammar::call_rest(self.tokens@, self.cursor(), expr@) == grammar::call(
                    old(self).tokens@,
                    old(self).cursor(),
                ),
            decreases grammar::remaining(self.tokens@, self.current as nat),
        {
            expr = self.finish_call(expr)?;
        }
        Ok(expr)
    }

    fn unary(&mut self) -> (result: Result<Expr, ParseError>)
        requires
            old(self).wf(),
        ensures
            final(self).parsed_expr(
                old(self),
                result,
                grammar::unary(old(self).tokens@, old(self).cursor()),
            ),
        decreases grammar::remaining(old(self).tokens@, old(self).current as nat), 2nat,
    {
        if self.matches(&[TokenType::Bang, TokenType::Minus]) {
            let operator = self.previous();
            let right = self.unary()?;
            Ok(Expr::unary(operator, right))
        } else {
            self.call()
        }
    }

    fn matches_operator(&mut self, level: u8) -> (matched: bool)
        requires
            old(self).wf(),
        ensures
            matched == (!grammar::at_end(old(self).tokens@, old(self).current as nat)
                && grammar::level_has(
                level as nat,
                grammar::kind_at(old(self).tokens@, old(self).current as nat),
            )),
            final(self).follows(
                old(self),
                if matched {
                    old(self).cursor().step()
                } else {
                    old(self).cursor()
                },
            ),
    {
        if level == 0 {
            self.matches(&[TokenType::Or])
        } else if level == 1 {
            self.matches(&[TokenType::And])
        } else if level == 2 {
            self.matches(&[TokenType::BangEqual, TokenType::EqualEqual])
        } else if level == 3 {
            self.matches(
                &[
                    TokenType::Greater,
                    TokenType::GreaterEqual,
                    TokenType::Less,
                    TokenType::LessEqual,
                ],
            )
        } else if level == 4 {
            self.matches(&[TokenType::Minus, TokenType::Plus, TokenType::TextConcat])
        } else {
            self.matches(&[TokenType::Slash, TokenType::Star])
        }
    }

    fn operand(&mut self, level: u8) -> (result: Result<Expr, ParseError>)
        requires
            old(self).wf(),
        ensures
            final(self).parsed_expr(
                old(self),
                result,
                grammar::operand(old(self).tokens@, old(self).cursor(), level as nat),
            ),
        decreases
                grammar::remaining(old(self).tokens@, old(self).current as nat),
                (if level >= 5 {
                    4nat
                } else {
                    (3 * (5 - level) + 4) as nat
                }),
    {
        if level == 0 {
            self.and()
        } else if level == 1 {
            self.equality()
        } else if level == 2 {
            self.comparison()
        } else if level == 3 {
            self.term()
        } else if level == 4 {
            self.factor()
        } else {
            self.unary()
        }
    }

    fn binary(&mut self, level: u8) -> (result: Result<Expr, ParseError>)
        requires
            old(self).wf(),
        ensures
            final(self).parsed_expr(
                old(self),
                result,
                grammar::binary(old(self).tokens@, old(self).cursor(), level as nat),
            ),
        decreases
                grammar::remaining(old(self).tokens@, old(self).current as nat),
                (if level >= 5 {
                    5nat
                } else {
                    (3 * (5 - level) + 5) as nat
                }),
    {
        let mut left = self.operand(level)?;
        while self.matches_operator(level)
            invariant
                self.wf(),
                self.tokens == old(self).tokens,
                self.current > old(self).current,
                grammar::binary_rest(self.tokens@, self.cursor(), level as nat, left@)
                    == grammar::binary(old(self).tokens@, old(self).cursor(), level as nat),
            decreases grammar::remaining(self.tokens@, self.current as nat),
        {
            let operator = self.previous();
            let right = self.operand(level)?;
            left = if level < 2 {
                Expr::logical(left, operator, right)
            } else {
                Expr::binary(left, operator, right)
            };
        }
        Ok(left)
    }

    fn factor(&mut self) -> (result: Result<Expr, ParseError>)
        requires
            old(self).wf(),
        ensures
            final(self).parsed_expr(
                old(self),
                result,
                grammar::binary(old(self).tokens@, old(self).cursor(), 5),
            ),
        decreases grammar::remaining(old(self).tokens@, old(self).current as nat), 6nat,
    {
        self.binary(5)
    }

    fn term(&mut self) -> (result: Result<Expr, ParseError>)
        requires
            old(self).wf(),
        ensures
            final(self).parsed_expr(
                old(self),
                result,
                grammar::binary(old(self).tokens@, old(self).cursor(), 4),
            ),
        decreases grammar::remaining(old(self).tokens@, old(self).current as nat), 9nat,
    {
        self.binary(4)
    }

    fn comparison(&mut self) -> (result: Result<Expr, ParseError>)
        requires
            old(self).wf(),
        ensures
            final(self).parsed_expr(
                old(self),
                result,
                grammar::binary(old(self).tokens@, old(self).cursor(), 3),
            ),
        decreases grammar::remaining(old(self).tokens@, old(self).current as nat), 12nat,
    {
        self.binary(3)
    }

    fn equality(&mut self) -> (result: Result<Expr, ParseError>)
        requires
            old(self).wf(),
        ensures
            final(self).parsed_expr(
                old(self),
                result,
                grammar::binary(old(self).tokens@, old(self).cursor(), 2),
            ),
        decreases grammar::remaining(old(self).tokens@, old(self).current as nat), 15nat,
    {
        self.binary(2)
    }

    fn and(&mut self) -> (result: Result<Expr, ParseError>)
        requires
            old(self).wf(),
        ensures
            final(self).parsed_expr(
                old(self),
                result,
                grammar::binary(old(self).tokens@, old(self).cursor(), 1),
            ),
        decreases grammar::remaining(old(self).tokens@, old(self).current as nat), 18nat,
    {
        self.binary(1)
    }

    fn or(&mut self) -> (result: Result<Expr, ParseError>)
        requires
            old(self).wf(),
        ensures
            final(self).parsed_expr(
                old(self),
                result,
                grammar::binary(old(self).tokens@, old(self).cursor(), 0),
            ),
        decreases grammar::remaining(old(self).tokens@, old(self).current as nat), 21nat,
    {
        self.binary(0)
    }

    fn assignment(&mut self) -> (result: Result<Expr, ParseError>)
        requires
            old(self).wf(),
        ensures
            final(self).parsed_expr(
                old(self),
                result,
                grammar::assignment(old(self).tokens@, old(self).cursor()),
            ),
        decreases grammar::remaining(old(self).tokens@, old(self).current as nat), 22nat,
    {
        let expr = self.or()?;
        if self.matches_one(TokenType::Equal) {
            let equals = self.previous();
            let value = self.assignment()?;
            match expr.into_target() {
                Some(name) => Ok(Expr::assign(name, value)),
                None => error_at(&mut self.diagnostics, equals, "Invalid assignment target"),
            }
        } else {
            Ok(expr)
        }
    }

    fn expression(&mut self) -> (result: Result<Expr, ParseError>)
        requires
            old(self).wf(),
        ensures
            final(self).parsed_expr(
                old(self),
                result,
                grammar::expression(old(self).tokens@, old(self).cursor()),
            ),
        decreases grammar::remaining(old(self).tokens@, old(self).current as nat), 23nat,
    {
        self.assignment()
    }

    fn tolerate(&mut self) -> (result: Option<Expr>)
        requires
            old(self).wf(),
        ensures
            final(self).follows(
                old(self),
                grammar::expression(old(self).tokens@, old(self).cursor()).cursor,
            ),
            expr_tolerated(result, grammar::expression(old(self).tokens@, old(self).cursor())),
        decreases grammar::remaining(old(self).tokens@, old(self).current as nat), 24nat,
    {
        match self.expression() {
            Ok(e) => Some(e),
            Err(_) => None,
        }
    }

    fn expression_statement(&mut self) -> (result: Result<Stmt, ParseError>)
        requires
            old(self).wf(),
        ensures
            final(self).parsed_stmt(
                old(self),
                result,
                grammar::expression_statement(old(self).tokens@, old(self).cursor()),
            ),
        decreases grammar::remaining(old(self).tokens@, old(self).current as nat), 24nat,
    {
        let expr = self.expression()?;
        self.consume(TokenType::EndOfExpression, "Expected '✊' after value")?;
        Ok(Stmt::expression(expr))
    }

    fn print_statement(&mut self) -> (result: Result<Stmt, ParseError>)
        requires
            old(self).wf(),
        ensures
            final(self).parsed_stmt(
                old(self),
                result,
                grammar::print_statement(old(self).tokens@, old(self).cursor()),
            ),
        decreases grammar::remaining(old(self).tokens@, old(self).current as nat), 24nat,
    {
        let expr = self.expression()?;
        self.consume(TokenType::EndOfExpression, "Expected '✊' after value")?;
        Ok(Stmt::print(expr))
    }

    fn return_statement(&mut self) -> (result: Result<Stmt, ParseError>)
        requires
            old(self).wf(),
            old(self).current >= 1,
        ensures
            final(self).parsed_stmt(
                old(self),
                result,
                grammar::return_statement(
                    old(self).tokens@,
                    old(self).cursor(),
                    old(self).tokens@[old(self).current - 1],
                ),
            ),
        decreases grammar::remaining(old(self).tokens@, old(self).current as nat), 25nat,
    {
        let keyword = self.previous();
        let value = if !self.check(TokenType::EndOfExpression) {
            self.tolerate()
        } else {
            None
        };
        self.consume(TokenType::EndOfExpression, "Expected '✊' after return value")?;
        Ok(Stmt::return_(keyword, value))
    }

    fn var_declaration(&mut self) -> (result: Result<Stmt, ParseError>)
        requires
            old(self).wf(),
        ensures
            final(self).parsed_stmt(
                old(self),
                result,
                grammar::var_declaration(old(self).tokens@, old(self).cursor()),
            ),
        decreases grammar::remaining(old(self).tokens@, old(self).current as nat), 25nat,
    {
        let name = self.consume(TokenType::Identifier, "Expected a variable name")?;
        let initializer = if self.matches_one(TokenType::Equal) {
            self.tolerate()
        } else {
            None
        };
        self.consume(
            TokenType::EndOfExpression,
            "Expected '✊' at the end of variable declaration",
        )?;
        Ok(Stmt::var(name, initializer))
    }

    #[verifier::spinoff_prover]
    fn if_statement(&mut self) -> (result: Result<Stmt, ParseError>)
        requires
            old(self).wf(),
        ensures
            final(self).parsed_stmt(
                old(self),
                result,
                grammar::if_statement(old(self).tokens@, old(self).cursor()),
            ),
        decreases grammar::remaining(old(self).tokens@, old(self).current as nat), 24nat,
    {
        self.consume(TokenType::LeftParen, "Expected '🫱' after '🤔'")?;
        let condition = self.expression()?;
        self.consume(TokenType::RightParen, "Expected '🫲' after '🤔' condition")?;
        let then_branch = self.statement()?;
        let else_branch = if self.matches_one(TokenType::Else) {
            match self.statement() {
                Ok(s) => Some(s),
                Err(_) => None,
            }
        } else {
            None
        };
        Ok(Stmt::if_(condition, then_branch, else_branch))
    }

    #[verifier::spinoff_prover]
    fn while_statement(&mut self) -> (result: Result<Stmt, ParseError>)
        requires
            old(self).wf(),
        ensures
            final(self).parsed_stmt(
                old(self),
                result,
                grammar::while_statement(old(self).tokens@, old(self).cursor()),
            ),
        decreases grammar::remaining(old(self).tokens@, old(self).current as nat), 24nat,
    {
        self.consume(TokenType::LeftParen, "Expected '🫱' after '🌀'")?;
        let condition = self.expression()?;
        self.consume(TokenType::RightParen, "Expected '🫲' after '🌀' condition")?;
        let body = self.statement()?;
        Ok(Stmt::while_(condition, body))
    }

    fn for_initializer(&mut self) -> (result: Option<Stmt>)
        requires
            old(self).wf(),
        ensures
            final(self).follows(
                old(self),
                grammar::for_initializer(old(self).tokens@, old(self).cursor()).cursor,
            ),
            stmt_option_view(result) == grammar::tolerated(
                grammar::for_initializer(old(self).tokens@, old(self).cursor()),
            ),
        decreases grammar::remaining(old(self).tokens@, old(self).current as nat), 26nat,
    {
        let attempt = if self.matches_one(TokenType::EndOfExpression) {
            return None;
        } else if self.matches_one(TokenType::Var) {
            self.var_declaration()
        } else {
            self.expression_statement()
        };
        match attempt {
            Ok(s) => Some(s),
            Err(_) => None,
        }
    }

    #[verifier::spinoff_prover]
    #[verifier::rlimit(60)]
    fn for_statement(&mut self) -> (result: Result<Stmt, ParseError>)
        requires
            old(self).wf(),
        ensures
            final(self).parsed_stmt(
                old(self),
                result,
                grammar::for_statement(old(self).tokens@, old(self).cursor()),
            ),
        decreases grammar::remaining(old(self).tokens@, old(self).current as nat), 24nat,
    {
        self.consume(TokenType::LeftParen, "Expected '🫱' after '⏳'")?;
        let initializer = self.for_initializer();
        let condition = if self.check(TokenType::EndOfExpression) {
            Expr::literal(Value::Boolean(true))
        } else {
            self.expression()?
        };
        self.consume(TokenType::EndOfExpression, "Expected '✊' after '⏳' loop condition")?;
        let increment = if !self.check(TokenType::RightParen) {
            self.tolerate()
        } else {
            None
        };
        self.consume(TokenType::RightParen, "Expected '🫲' after '⏳' clause")?;
        let body = self.statement()?;
        Ok(desugar_for(initializer, condition, increment, body))
    }

    #[verifier::spinoff_prover]
    fn block(&mut self) -> (result: Result<Vec<Stmt>, ParseError>)
        requires
            old(self).wf(),
        ensures
            final(self).follows(
                old(self),
                grammar::block(old(self).tokens@, old(self).cursor()).cursor,
            ),
            match (result, grammar::block(old(self).tokens@, old(self).cursor()).outcome) {
                (Ok(stmts), Ok(v)) => stmts_view(stmts@) == v && final(self).current > old(
                    self,
                ).current,
                (Err(e), Err(m)) => e.message@ == m,
                _ => false,
            },
        decreases grammar::remaining(old(self).tokens@, old(self).current as nat), 28nat,
    {
        let mut stmts: Vec<Stmt> = Vec::new();
        assert(stmts_view(stmts@) =~= Seq::<StmtView>::empty());
        while !self.check(TokenType::RightCurlyBrace) && !self.is_at_end()
            invariant
                self.wf(),
                self.tokens == old(self).tokens,
                self.current >= old(self).current,
                grammar::block_rest(self.tokens@, self.cursor(), stmts_view(stmts@))
                    == grammar::block_rest(
                    old(self).tokens@,
                    old(self).cursor(),
                    Seq::<StmtView>::empty(),
                ),
            decreases grammar::remaining(self.tokens@, self.current as nat),
        {
            if let Some(stmt) = self.declaration() {
                proof {
                    assert(stmts_view(stmts@.push(stmt)) =~= stmts_view(stmts@).push(stmt@));
                }
                stmts.push(stmt);
            }
        }
        self.consume(TokenType::RightCurlyBrace, "Expected '🫷' after block")?;
        Ok(stmts)
    }

    fn block_statement(&mut self) -> (result: Result<Stmt, ParseError>)
        requires
            old(self).wf(),
        ensures
            final(self).parsed_stmt(
                old(self),
                result,
                grammar::block_statement(old(self).tokens@, old(self).cursor()),
            ),
        decreases grammar::remaining(old(self).tokens@, old(self).current as nat), 29nat,
    {
        Ok(Stmt::block(self.block()?))
    }

    fn parameters(&mut self) -> (result: Result<Vec<Token>, ParseError>)
        requires
            old(self).wf(),
        ensures
            final(self).follows(
                old(self),
                grammar::parameters(old(self).tokens@, old(self).cursor()).cursor,
            ),
            match (result, grammar::parameters(old(self).tokens@, old(self).cursor()).outcome) {
                (Ok(params), Ok(v)) => params@ == v,
                (Err(e), Err(m)) => e.message@ == m,
                _ => false,
            },
    {
        let mut params: Vec<Token> = Vec::new();
        if !self.check(TokenType::RightParen) {
            let first = self.consume(TokenType::Identifier, "Expected parameter name")?;
            params.push(first);
            assert(params@ =~= seq![first]);
            while self.matches_one(TokenType::Comma)
                invariant
                    self.wf(),
                    self.tokens == old(self).tokens,
                    self.current >= old(self).current,
                    grammar::parameters_rest(self.tokens@, self.cursor(), params@)
                        == grammar::parameters(old(self).tokens@, old(self).cursor()),
                decreases grammar::remaining(self.tokens@, self.current as nat),
            {
                if params.len() >= 255 {
                    error_at_token(
                        &mut self.diagnostics,
                        &self.tokens[self.current],
                        "Can't have more than 255 params",
                    );
                }
                let next = self.consume(TokenType::Identifier, "Expected parameter name")?;
                params.push(next);
            }
        }
        Ok(params)
    }

    #[verifier::spinoff_prover]
    fn function(&mut self, kind: &str) -> (result: Result<Stmt, ParseError>)
        requires
            old(self).wf(),
        ensures
            final(self).parsed_stmt(
                old(self),
                result,
                grammar::function(old(self).tokens@, old(self).cursor(), kind@),
            ),
        decreases grammar::remaining(old(self).tokens@, old(self).current as nat), 29nat,
    {
        let mut expected_name = String::from_str("Expected ");
        expected_name.append(kind);
        expected_name.append(" name");
        assert(expected_name@ =~= "Expected "@ + kind@ + " name"@);
        let name = self.consume(TokenType::Identifier, expected_name.as_str())?;
        let mut expected_paren = String::from_str("Expected '🫱' after ");
        expected_paren.append(kind);
        expected_paren.append(" name");
        assert(expected_paren@ =~= "Expected '🫱' after "@ + kind@ + " name"@);
        self.consume(TokenType::LeftParen, expected_paren.as_str())?;
        let params = self.parameters()?;
        self.consume(TokenType::RightParen, "Expected '🫲' after params")?;
        let mut expected_body = String::from_str("Expected '🫸' before ");
        expected_body.append(kind);
        expected_body.append(" body");
        assert(expected_body@ =~= "Expected '🫸' before "@ + kind@ + " body"@);
        self.consume(TokenType::LeftCurlyBrace, expected_body.as_str())?;
        let body = self.block()?;
        Ok(Stmt::func(name, params, body))
    }

    #[verifier::spinoff_prover]
    fn statement(&mut self) -> (result: Result<Stmt, ParseError>)
        requires
            old(self).wf(),
        ensures
            final(self).parsed_stmt(
                old(self),
                result,
                grammar::statement(old(self).tokens@, old(self).cursor()),
            ),
        decreases grammar::remaining(old(self).tokens@, old(self).current as nat), 25nat,
    {
        if self.matches_one(TokenType::For) {
            self.for_statement()
        } else if self.matches_one(TokenType::If) {
            self.if_statement()
        } else if self.matches_one(TokenType::Print) {
            self.print_statement()
        } else if self.matches_one(TokenType::Return) {
            self.return_statement()
        } else if self.matches_one(TokenType::While) {
            self.while_statement()
        } else if self.matches_one(TokenType::LeftCurlyBrace) {
            self.block_statement()
        } else {
            self.expression_statement()
        }
    }

    #[verifier::spinoff_prover]
    fn attempt(&mut self) -> (result: Result<Stmt, ParseError>)
        requires
            old(self).wf(),
        ensures
            final(self).parsed_stmt(
                old(self),
                result,
                grammar::attempt(old(self).tokens@, old(self).cursor()),
            ),
        decreases grammar::remaining(old(self).tokens@, old(self).current as nat), 26nat,
    {
        if self.matches_one(TokenType::Function) {
            self.function("function")
        } else if self.matches_one(TokenType::Var) {
            self.var_declaration()
        } else {
            self.statement()
        }
    }

    #[verifier::spinoff_prover]
    fn declaration(&mut self) -> (result: Option<Stmt>)
        requires
            old(self).wf(),
            !grammar::at_end(old(self).tokens@, old(self).current as nat),
        ensures
            final(self).follows(
                old(self),
                grammar::declaration(old(self).tokens@, old(self).cursor()).cursor,
            ),
            final(self).current > old(self).current,
            match (result, grammar::declaration(old(self).tokens@, old(self).cursor()).outcome) {
                (Some(s), Ok(v)) => s@ == v,
                (None, Err(_)) => true,
                _ => false,
            },
        decreases grammar::remaining(old(self).tokens@, old(self).current as nat), 27nat,
    {
        match self.attempt() {
            Ok(stmt) => Some(stmt),
            Err(_) => {
                assert(!grammar::at_end(self.tokens@, self.current as nat) || self.current >= 1);
                self.synchronize();
                None
            },
        }
    }

    /// Parses the whole token sequence. Every declaration that parses is
    /// in the result, in order; each one that does not is reported and
    /// skipped. Parsing ends at the end of input. Every expression in the
    /// result is layered: its shape is the one that precedence asks for.
    pub fn parse(&mut self) -> (statements: Vec<Stmt>)
        requires
            old(self).wf(),
        ensures
            final(self).wf(),
            final(self).tokens() == old(self).tokens(),
            stmts_view(statements@) == grammar::program(
                old(self).tokens(),
                old(self).cursor(),
            ).statements,
            final(self).cursor() == grammar::program(old(self).tokens(), old(self).cursor()).cursor,
            grammar::at_end(final(self).tokens(), final(self).cursor().position),
            crate::precedence::all_layered_stmts(stmts_view(statements@)),
    {
        proof {
            crate::precedence::lemma_program_layered(self.tokens@, self.cursor());
        }
        let mut statements: Vec<Stmt> = Vec::new();
        assert(stmts_view(statements@) =~= Seq::<StmtView>::empty());
        while !self.is_at_end()
            invariant
                self.wf(),
                self.tokens == old(self).tokens,
                grammar::program_rest(self.tokens@, self.cursor(), stmts_view(statements@))
                    == grammar::program(old(self).tokens@, old(self).cursor()),
            decreases grammar::remaining(self.tokens@, self.current as nat),
        {
            if let Some(stmt) = self.declaration() {
                proof {
                    assert(stmts_view(statements@.push(stmt)) =~= stmts_view(statements@).push(
                        stmt@,
                    ));
                }
                statements.push(stmt);
            }
        }
        statements
    }

    fn synchronize(&mut self)
        requires
            old(self).wf(),
            !grammar::at_end(old(self).tokens@, old(self).current as nat) || old(self).current >= 1,
        ensures
            final(self).follows(
                old(self),
                grammar::synchronize(old(self).tokens@, old(self).cursor()),
            ),
            !grammar::at_end(old(self).tokens@, old(self).current as nat) ==> final(self).current
                > old(self).current,
    {
        reveal(grammar::skip);
        self.advance();
        while !self.is_at_end()
            invariant
                self.wf(),
                self.tokens == old(self).tokens,
                self.cursor().reports == old(self).cursor().reports,
                self.current >= old(self).current,
                self.current >= 1,
                !grammar::at_end(old(self).tokens@, old(self).current as nat) ==> self.current
                    > old(self).current,
                grammar::skip(self.tokens@, self.cursor()) == grammar::synchronize(
                    old(self).tokens@,
                    old(self).cursor(),
                ),
            decreases self.tokens@.len() - self.current,
        {
            reveal(grammar::skip);
            if self.previous().token_type == TokenType::EndOfExpression {
                return ;
            }
            let kind = self.peek().token_type;
            if kind == TokenType::Function || kind == TokenType::Var || kind == TokenType::If
                || kind == TokenType::While || kind == TokenType::Print || kind
                == TokenType::Return {
                return ;
            }
            self.advance();
        }
    }
}

} // verus!
