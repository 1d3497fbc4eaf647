//! Precedence, stated on the tree.
//!
//! Every node has a tightness, from assignment (loosest) to primary
//! (tightest). A tree is layered if no operand binds more loosely than its
//! place allows: the left operand of a binary operator is at least as tight
//! as the operator, the right operand strictly tighter, the operand of a
//! prefix operator at least as tight as a prefix operator, a callee at
//! least as tight as a call. What stands in parentheses, as an argument or
//! on the right of `=` is free. The parser only builds layered trees.

use crate::ast::{ExprView, StmtView};
use crate::grammar::{
    arguments, assignment, attempt, binary, binary_rest, block, block_rest, block_statement, call,
    call_rest, check, conditional, declaration, desugar_for, expression, expression_statement,
    finish_call, for_initializer, for_statement, function, grouping, level_has, operand,
    parameters, primary, print_statement, program, program_rest, remaining, return_statement,
    statement, terminated_expression, tolerated, unary, var_declaration, Cursor,
};
use crate::token::{Token, TokenType};
use vstd::prelude::*;

verus! {

/// The binary layer that `kind` is an operator of: 0 for `or` up to 5 for
/// the multiplicative operators. Meaningful for operators only.
pub open spec fn layer_of(kind: TokenType) -> nat {
    if kind == TokenType::Or {
        0
    } else if kind == TokenType::And {
        1
    } else if kind == TokenType::BangEqual || kind == TokenType::EqualEqual {
        2
    } else if kind == TokenType::Greater || kind == TokenType::GreaterEqual || kind
        == TokenType::Less || kind == TokenType::LessEqual {
        3
    } else if kind == TokenType::Minus || kind == TokenType::Plus || kind
        == TokenType::TextConcat {
        4
    } else {
        5
    }
}

/// How tightly the top node of `e` binds: 0 for an assignment, 1 to 6 for
/// the binary layers, 7 for a prefix operator, 8 for a call, 9 for a
/// primary.
pub open spec fn tightness(e: ExprView) -> nat {
    match e {
        ExprView::Assign(_, _) => 0,
        ExprView::Logical(_, operator, _) => layer_of(operator.token_type) + 1,
        ExprView::Binary(_, operator, _) => layer_of(operator.token_type) + 1,
        ExprView::Unary(_, _) => 7,
        ExprView::Call(_, _, _) => 8,
        ExprView::Literal(_) => 9,
        ExprView::Variable(_) => 9,
        ExprView::Grouping(_) => 9,
    }
}

/// Whether every operand in `e` is as tight as its place requires.
pub open spec fn layered(e: ExprView) -> bool
    decreases e,
{
    match e {
        ExprView::Literal(_) => true,
        ExprView::Variable(_) => true,
        ExprView::Grouping(inner) => layered(*inner),
        ExprView::Assign(_, value) => layered(*value),
        ExprView::Unary(operator, right) => {
            &&& operator.token_type == TokenType::Bang || operator.token_type == TokenType::Minus
            &&& tightness(*right) >= 7
            &&& layered(*right)
        },
        ExprView::Logical(left, operator, right) => {
            &&& operator.token_type == TokenType::Or || operator.token_type == TokenType::And
            &&& tightness(*left) >= layer_of(operator.token_type) + 1
            &&& tightness(*right) > layer_of(operator.token_type) + 1
            &&& layered(*left)
            &&& layered(*right)
        },
        ExprView::Binary(left, operator, right) => {
            &&& 2 <= layer_of(operator.token_type)
            &&& level_has(layer_of(operator.token_type), operator.token_type)
            &&& tightness(*left) >= layer_of(operator.token_type) + 1
            &&& tightness(*right) > layer_of(operator.token_type) + 1
            &&& layered(*left)
            &&& layered(*right)
        },
        ExprView::Call(callee, _, args) => {
            &&& tightness(*callee) >= 8
            &&& layered(*callee)
            &&& forall|i: int| 0 <= i < args.len() ==> layered(#[trigger] args[i])
        },
    }
}

/// Whether every expression in `list` is layered.
pub open spec fn all_layered(list: Seq<ExprView>) -> bool {
    forall|i: int| 0 <= i < list.len() ==> layered(#[trigger] list[i])
}

proof fn lemma_primary(tokens: Seq<Token>, c: Cursor)
    ensures
        primary(tokens, c).outcome matches Ok(e) ==> layered(e) && tightness(e) == 9,
    decreases remaining(tokens, c.position), 0nat,
{
    if crate::grammar::check(tokens, c.position, TokenType::LeftParen) {
        lemma_grouping(tokens, c.step());
    }
}

proof fn lemma_grouping(tokens: Seq<Token>, c: Cursor)
    ensures
        grouping(tokens, c).outcome matches Ok(e) ==> layered(e) && tightness(e) == 9,
    decreases remaining(tokens, c.position), 17nat,
{
    lemma_expression(tokens, c);
}

proof fn lemma_arguments(tokens: Seq<Token>, c: Cursor, collected: Seq<ExprView>)
    requires
        all_layered(collected),
    ensures
        arguments(tokens, c, collected).outcome matches Ok(list) ==> all_layered(list),
    decreases remaining(tokens, c.position), 17nat,
{
    let noted = if collected.len() >= crate::grammar::limit() {
        crate::grammar::remark(tokens, c, "Can't have more than 255 arguments"@)
    } else {
        c
    };
    lemma_expression(tokens, noted);
    let argument = expression(tokens, noted).since(noted);
    if let Ok(e) = argument.outcome {
        if crate::grammar::check(tokens, argument.cursor.position, TokenType::Comma) {
            lemma_arguments(tokens, argument.cursor.step(), collected.push(e));
        }
    }
}

proof fn lemma_finish_call(tokens: Seq<Token>, c: Cursor, callee: ExprView)
    requires
        layered(callee),
        tightness(callee) >= 8,
    ensures
        finish_call(tokens, c, callee).outcome matches Ok(e) ==> layered(e) && tightness(e) == 8,
    decreases remaining(tokens, c.position), 18nat,
{
    if !crate::grammar::check(tokens, c.position, TokenType::RightParen) {
        lemma_arguments(tokens, c, Seq::<ExprView>::empty());
    }
}

proof fn lemma_call_rest(tokens: Seq<Token>, c: Cursor, callee: ExprView)
    requires
        layered(callee),
        tightness(callee) >= 8,
    ensures
        call_rest(tokens, c, callee).outcome matches Ok(e) ==> layered(e) && tightness(e) >= 8,
    decreases remaining(tokens, c.position), 0nat,
{
    if crate::grammar::check(tokens, c.position, TokenType::LeftParen) {
        lemma_finish_call(tokens, c.step(), callee);
        let applied = finish_call(tokens, c.step(), callee).since(c.step());
        if let Ok(e) = applied.outcome {
            lemma_call_rest(tokens, applied.cursor, e);
        }
    }
}

proof fn lemma_call(tokens: Seq<Token>, c: Cursor)
    ensures
        call(tokens, c).outcome matches Ok(e) ==> layered(e) && tightness(e) >= 8,
    decreases remaining(tokens, c.position), 1nat,
{
    lemma_primary(tokens, c);
    let callee = primary(tokens, c).since(c);
    if let Ok(e) = callee.outcome {
        lemma_call_rest(tokens, callee.cursor, e);
    }
}

proof fn lemma_unary(tokens: Seq<Token>, c: Cursor)
    ensures
        unary(tokens, c).outcome matches Ok(e) ==> layered(e) && tightness(e) >= 7,
    decreases remaining(tokens, c.position), 2nat,
{
    if crate::grammar::check(tokens, c.position, TokenType::Bang) || crate::grammar::check(
        tokens,
        c.position,
        TokenType::Minus,
    ) {
        lemma_unary(tokens, c.step());
    } else {
        lemma_call(tokens, c);
    }
}

proof fn lemma_operand(tokens: Seq<Token>, c: Cursor, level: nat)
    requires
        level <= 5,
    ensures
        operand(tokens, c, level).outcome matches Ok(e) ==> layered(e) && tightness(e) >= level
            + 2,
    decreases remaining(tokens, c.position), (crate::grammar::binary_rank(level) - 1) as nat,
{
    if level >= 5 {
        lemma_unary(tokens, c);
    } else {
        lemma_binary(tokens, c, level + 1);
    }
}

proof fn lemma_binary_rest(tokens: Seq<Token>, c: Cursor, level: nat, left: ExprView)
    requires
        level <= 5,
        layered(left),
        tightness(left) >= level + 1,
    ensures
        binary_rest(tokens, c, level, left).outcome matches Ok(e) ==> layered(e) && tightness(e)
            >= level + 1,
    decreases remaining(tokens, c.position), 0nat,
{
    if !crate::grammar::at_end(tokens, c.position) && level_has(
        level,
        crate::grammar::kind_at(tokens, c.position),
    ) {
        lemma_operand(tokens, c.step(), level);
        let right = operand(tokens, c.step(), level).since(c.step());
        if let Ok(r) = right.outcome {
            let joined = crate::grammar::join(level, left, tokens[c.position as int], r);
            assert(layer_of(tokens[c.position as int].token_type) == level);
            assert(layered(joined));
            lemma_binary_rest(tokens, right.cursor, level, joined);
        }
    }
}

proof fn lemma_binary(tokens: Seq<Token>, c: Cursor, level: nat)
    requires
        level <= 5,
    ensures
        binary(tokens, c, level).outcome matches Ok(e) ==> layered(e) && tightness(e) >= level
            + 1,
    decreases remaining(tokens, c.position), crate::grammar::binary_rank(level),
{
    lemma_operand(tokens, c, level);
    let left = operand(tokens, c, level).since(c);
    if let Ok(e) = left.outcome {
        lemma_binary_rest(tokens, left.cursor, level, e);
    }
}

proof fn lemma_assignment(tokens: Seq<Token>, c: Cursor)
    ensures
        assignment(tokens, c).outcome matches Ok(e) ==> layered(e),
    decreases remaining(tokens, c.position), 15nat,
{
    lemma_binary(tokens, c, 0);
    let target = binary(tokens, c, 0).since(c);
    if let Ok(e) = target.outcome {
        if crate::grammar::check(tokens, target.cursor.position, TokenType::Equal) {
            lemma_assignment(tokens, target.cursor.step());
        }
    }
}

proof fn lemma_expression(tokens: Seq<Token>, c: Cursor)
    ensures
        expression(tokens, c).outcome matches Ok(e) ==> layered(e),
    decreases remaining(tokens, c.position), 16nat,
{
    lemma_assignment(tokens, c);
}

/// Operator precedence: whatever expression the grammar finds, from any
/// position of any token sequence, is layered.
pub proof fn lemma_expression_layered(tokens: Seq<Token>, c: Cursor)
    ensures
        expression(tokens, c).outcome matches Ok(e) ==> layered(e),
{
    lemma_expression(tokens, c);
}

/// Each binary layer yields a tree at least as tight as the layer: an
/// operator of a looser layer never ends up below one of a tighter layer
/// without parentheses.
pub proof fn lemma_layer_tightness(tokens: Seq<Token>, c: Cursor, level: nat)
    requires
        level <= 5,
    ensures
        binary(tokens, c, level).outcome matches Ok(e) ==> layered(e) && tightness(e) >= level
            + 1,
{
    lemma_binary(tokens, c, level);
}

/// Whether an expression that may be absent is layered where it is there.
pub open spec fn layered_if_any(e: Option<ExprView>) -> bool {
    match e {
        Some(e) => layered(e),
        None => true,
    }
}

/// Whether every expression in `s` is layered.
pub open spec fn layered_stmt(s: StmtView) -> bool
    decreases s,
{
    match s {
        StmtView::Expression(e) => layered(e),
        StmtView::Print(e) => layered(e),
        StmtView::Var(_, initializer) => layered_if_any(initializer),
        StmtView::Block(stmts) => forall|i: int|
            0 <= i < stmts.len() ==> layered_stmt(#[trigger] stmts[i]),
        StmtView::If(condition, then_branch, else_branch) => {
            &&& layered(condition)
            &&& layered_stmt(*then_branch)
            &&& match else_branch {
                Some(branch) => layered_stmt(*branch),
                None => true,
            }
        },
        StmtView::While(condition, body) => layered(condition) && layered_stmt(*body),
        StmtView::Func(_, _, body) => forall|i: int|
            0 <= i < body.len() ==> layered_stmt(#[trigger] body[i]),
        StmtView::Return(_, value) => layered_if_any(value),
    }
}

/// Whether every expression in every statement of `list` is layered.
pub open spec fn all_layered_stmts(list: Seq<StmtView>) -> bool {
    forall|i: int| 0 <= i < list.len() ==> layered_stmt(#[trigger] list[i])
}

proof fn lemma_terminated_expression(
    tokens: Seq<Token>,
    c: Cursor,
    wrap: spec_fn(ExprView) -> StmtView,
)
    requires
        forall|e: ExprView| layered(e) ==> layered_stmt(#[trigger] wrap(e)),
    ensures
        terminated_expression(tokens, c, wrap).outcome matches Ok(s) ==> layered_stmt(s),
{
    lemma_expression(tokens, c);
}

proof fn lemma_return_statement(tokens: Seq<Token>, c: Cursor, keyword: Token)
    ensures
        return_statement(tokens, c, keyword).outcome matches Ok(s) ==> layered_stmt(s),
{
    lemma_expression(tokens, c);
}

proof fn lemma_var_declaration(tokens: Seq<Token>, c: Cursor)
    ensures
        var_declaration(tokens, c).outcome matches Ok(s) ==> layered_stmt(s),
{
    lemma_expression(tokens, c.step().step());
    let name = crate::grammar::consume(
        tokens,
        c,
        TokenType::Identifier,
        "Expected a variable name"@,
    );
    lemma_expression(tokens, name.cursor.step());
}

proof fn lemma_conditional(tokens: Seq<Token>, c: Cursor, if_: bool)
    ensures
        conditional(tokens, c, if_).outcome matches Ok(s) ==> layered_stmt(s),
    decreases remaining(tokens, c.position), 18nat,
{
    let open = crate::grammar::consume(
        tokens,
        c,
        TokenType::LeftParen,
        if if_ {
            "Expected '🫱' after '🤔'"@
        } else {
            "Expected '🫱' after '🌀'"@
        },
    );
    if open.outcome is Ok {
        lemma_expression(tokens, open.cursor);
        let condition = expression(tokens, open.cursor).since(open.cursor);
        if condition.outcome is Ok {
            let close = crate::grammar::consume(
                tokens,
                condition.cursor,
                TokenType::RightParen,
                if if_ {
                    "Expected '🫲' after '🤔' condition"@
                } else {
                    "Expected '🫲' after '🌀' condition"@
                },
            );
            if close.outcome is Ok {
                lemma_statement(tokens, close.cursor);
                let body = statement(tokens, close.cursor).since(close.cursor);
                if body.outcome is Ok && if_ && check(
                    tokens,
                    body.cursor.position,
                    TokenType::Else,
                ) {
                    lemma_statement(tokens, body.cursor.step());
                }
            }
        }
    }
}

proof fn lemma_for_initializer(tokens: Seq<Token>, c: Cursor)
    ensures
        for_initializer(tokens, c).outcome matches Ok(s) ==> layered_stmt(s),
{
    lemma_var_declaration(tokens, c.step());
    lemma_terminated_expression(tokens, c, |e: ExprView| StmtView::Expression(e));
}

proof fn lemma_desugar_for(
    initializer: Option<StmtView>,
    condition: ExprView,
    increment: Option<ExprView>,
    body: StmtView,
)
    requires
        initializer matches Some(s) ==> layered_stmt(s),
        layered(condition),
        layered_if_any(increment),
        layered_stmt(body),
    ensures
        layered_stmt(desugar_for(initializer, condition, increment, body)),
{
    let repeated = match increment {
        Some(inc) => StmtView::Block(seq![body, StmtView::Expression(inc)]),
        None => body,
    };
    if let Some(inc) = increment {
        let parts = seq![body, StmtView::Expression(inc)];
        assert(parts[0] == body && parts[1] == StmtView::Expression(inc));
        assert(all_layered_stmts(parts));
    }
    assert(layered_stmt(repeated));
    let looped = StmtView::While(condition, Box::new(repeated));
    assert(layered_stmt(looped));
    if let Some(init) = initializer {
        let parts = seq![init, looped];
        assert(parts[0] == init && parts[1] == looped);
        assert(all_layered_stmts(parts));
    }
}

proof fn lemma_for_statement(tokens: Seq<Token>, c: Cursor)
    ensures
        for_statement(tokens, c).outcome matches Ok(s) ==> layered_stmt(s),
    decreases remaining(tokens, c.position), 18nat,
{
    let open = crate::grammar::consume(tokens, c, TokenType::LeftParen, "Expected '🫱' after '⏳'"@);
    if open.outcome is Ok {
        lemma_for_initializer(tokens, open.cursor);
        let initializer = for_initializer(tokens, open.cursor).since(open.cursor);
        lemma_expression(tokens, initializer.cursor);
        let condition = if check(tokens, initializer.cursor.position, TokenType::EndOfExpression) {
            crate::grammar::Parsed {
                outcome: Ok(ExprView::Literal(crate::token::ValueView::Boolean(true))),
                cursor: initializer.cursor,
            }
        } else {
            expression(tokens, initializer.cursor).since(initializer.cursor)
        };
        if let Ok(test) = condition.outcome {
            let semicolon = crate::grammar::consume(
                tokens,
                condition.cursor,
                TokenType::EndOfExpression,
                "Expected '✊' after '⏳' loop condition"@,
            );
            if semicolon.outcome is Ok {
                lemma_expression(tokens, semicolon.cursor);
                let increment = if !check(
                    tokens,
                    semicolon.cursor.position,
                    TokenType::RightParen,
                ) {
                    expression(tokens, semicolon.cursor).since(semicolon.cursor)
                } else {
                    crate::grammar::Parsed {
                        outcome: Err(Seq::<char>::empty()),
                        cursor: semicolon.cursor,
                    }
                };
                let close = crate::grammar::consume(
                    tokens,
                    increment.cursor,
                    TokenType::RightParen,
                    "Expected '🫲' after '⏳' clause"@,
                );
                if close.outcome is Ok {
                    lemma_statement(tokens, close.cursor);
                    let body = statement(tokens, close.cursor);
                    if let Ok(b) = body.outcome {
                        lemma_desugar_for(
                            tolerated(initializer),
                            test,
                            tolerated(increment),
                            b,
                        );
                    }
                }
            }
        }
    }
}

proof fn lemma_block_rest(tokens: Seq<Token>, c: Cursor, collected: Seq<StmtView>)
    requires
        all_layered_stmts(collected),
    ensures
        all_layered_stmts(block_rest(tokens, c, collected).statements),
    decreases remaining(tokens, c.position), 22nat,
{
    if !check(tokens, c.position, TokenType::RightCurlyBrace) && !crate::grammar::at_end(
        tokens,
        c.position,
    ) {
        lemma_declaration(tokens, c);
        let next = declaration(tokens, c);
        let gathered = match next.outcome {
            Ok(s) => collected.push(s),
            Err(_) => collected,
        };
        if next.cursor.position > c.position {
            lemma_block_rest(tokens, next.cursor, gathered);
        }
    }
}

proof fn lemma_block(tokens: Seq<Token>, c: Cursor)
    ensures
        block(tokens, c).outcome matches Ok(stmts) ==> all_layered_stmts(stmts),
    decreases remaining(tokens, c.position), 23nat,
{
    lemma_block_rest(tokens, c, Seq::<StmtView>::empty());
}

proof fn lemma_block_statement(tokens: Seq<Token>, c: Cursor)
    ensures
        block_statement(tokens, c).outcome matches Ok(s) ==> layered_stmt(s),
    decreases remaining(tokens, c.position), 24nat,
{
    lemma_block(tokens, c);
}

proof fn lemma_function(tokens: Seq<Token>, c: Cursor, kind: Seq<char>)
    ensures
        function(tokens, c, kind).outcome matches Ok(s) ==> layered_stmt(s),
    decreases remaining(tokens, c.position), 18nat,
{
    let name = crate::grammar::consume(
        tokens,
        c,
        TokenType::Identifier,
        "Expected "@ + kind + " name"@,
    );
    if name.outcome is Ok {
        let open = crate::grammar::consume(
            tokens,
            name.cursor,
            TokenType::LeftParen,
            "Expected '🫱' after "@ + kind + " name"@,
        );
        if open.outcome is Ok {
            let params = parameters(tokens, open.cursor).since(open.cursor);
            if params.outcome is Ok {
                let close = crate::grammar::consume(
                    tokens,
                    params.cursor,
                    TokenType::RightParen,
                    "Expected '🫲' after params"@,
                );
                if close.outcome is Ok {
                    let brace = crate::grammar::consume(
                        tokens,
                        close.cursor,
                        TokenType::LeftCurlyBrace,
                        "Expected '🫸' before "@ + kind + " body"@,
                    );
                    if brace.outcome is Ok {
                        lemma_block(tokens, brace.cursor);
                    }
                }
            }
        }
    }
}

proof fn lemma_statement(tokens: Seq<Token>, c: Cursor)
    ensures
        statement(tokens, c).outcome matches Ok(s) ==> layered_stmt(s),
    decreases remaining(tokens, c.position), 19nat,
{
    if check(tokens, c.position, TokenType::For) {
        lemma_for_statement(tokens, c.step());
    } else if check(tokens, c.position, TokenType::If) {
        lemma_conditional(tokens, c.step(), true);
    } else if check(tokens, c.position, TokenType::Print) {
        lemma_terminated_expression(tokens, c.step(), |e: ExprView| StmtView::Print(e));
    } else if check(tokens, c.position, TokenType::Return) {
        lemma_return_statement(tokens, c.step(), tokens[c.position as int]);
    } else if check(tokens, c.position, TokenType::While) {
        lemma_conditional(tokens, c.step(), false);
    } else if check(tokens, c.position, TokenType::LeftCurlyBrace) {
        lemma_block_statement(tokens, c.step());
    } else {
        lemma_terminated_expression(tokens, c, |e: ExprView| StmtView::Expression(e));
    }
}

proof fn lemma_declaration(tokens: Seq<Token>, c: Cursor)
    ensures
        declaration(tokens, c).outcome matches Ok(s) ==> layered_stmt(s),
    decreases remaining(tokens, c.position), 21nat,
{
    if check(tokens, c.position, TokenType::Function) {
        lemma_function(tokens, c.step(), "function"@);
    } else if check(tokens, c.position, TokenType::Var) {
        lemma_var_declaration(tokens, c.step());
    } else {
        lemma_statement(tokens, c);
    }
}

proof fn lemma_program_rest(tokens: Seq<Token>, c: Cursor, collected: Seq<StmtView>)
    requires
        all_layered_stmts(collected),
    ensures
        all_layered_stmts(program_rest(tokens, c, collected).statements),
    decreases remaining(tokens, c.position),
{
    if !crate::grammar::at_end(tokens, c.position) {
        lemma_declaration(tokens, c);
        let next = declaration(tokens, c);
        let gathered = match next.outcome {
            Ok(s) => collected.push(s),
            Err(_) => collected,
        };
        if next.cursor.position > c.position {
            lemma_program_rest(tokens, next.cursor, gathered);
        }
    }
}

/// Operator precedence, for whole programs: every expression in every
/// statement that the grammar finds in a token sequence is layered.
pub proof fn lemma_program_layered(tokens: Seq<Token>, c: Cursor)
    ensures
        all_layered_stmts(program(tokens, c).statements),
{
    lemma_program_rest(tokens, c, Seq::<StmtView>::empty());
}

} // verus!

