//! What a tree says about the tokens it was parsed from.
//!
//! An expression is spelled at a position of a token sequence if its tokens
//! stand there in order: an operator between its operands, a call's
//! arguments between its parentheses and separated by commas, and so on.
//! The parser only yields trees that are spelled where it found them, and it
//! stops right behind them. Together with [`crate::precedence`] this says
//! that the tree is a reading of exactly the tokens consumed, and the one
//! that precedence asks for.

use crate::ast::ExprView;
use crate::grammar::{
    arguments, assignment, binary, binary_rest, call, call_rest, check, expression, finish_call,
    grouping, kind_at, level_has, operand, primary, remaining, unary, Cursor,
};
use crate::token::{literal_of, Token, TokenType, ValueView};
use vstd::prelude::*;

verus! {

/// The number of tokens that spell `e`.
pub open spec fn width(e: ExprView) -> nat
    decreases e, 0nat,
{
    match e {
        ExprView::Literal(_) => 1,
        ExprView::Variable(_) => 1,
        ExprView::Grouping(inner) => width(*inner) + 2,
        ExprView::Unary(_, right) => width(*right) + 1,
        ExprView::Binary(left, _, right) => width(*left) + 1 + width(*right),
        ExprView::Logical(left, _, right) => width(*left) + 1 + width(*right),
        ExprView::Assign(_, value) => width(*value) + 2,
        ExprView::Call(callee, _, args) => width(*callee) + 2 + list_width(args, args.len()),
    }
}

/// The number of tokens that spell the first `n` expressions of `list`
/// with the commas between them.
pub open spec fn list_width(list: Seq<ExprView>, n: nat) -> nat
    decreases list, n,
{
    if n == 0 || n > list.len() {
        0
    } else if n == 1 {
        width(list[0])
    } else {
        list_width(list, (n - 1) as nat) + 1 + width(list[n - 1])
    }
}

/// Whether the token at `from` is a literal with the value `value`.
pub open spec fn literal_at(tokens: Seq<Token>, from: nat, value: ValueView) -> bool {
    let kind = kind_at(tokens, from);
    if kind == TokenType::False {
        value == ValueView::Boolean(false)
    } else if kind == TokenType::True {
        value == ValueView::Boolean(true)
    } else if kind == TokenType::Nil {
        value == ValueView::Nil
    } else if kind == TokenType::Number || kind == TokenType::Text {
        value == literal_of(tokens[from as int].value)
    } else {
        false
    }
}

/// Whether the token at `at` is `token`.
pub open spec fn token_at(tokens: Seq<Token>, at: nat, token: Token) -> bool {
    at < tokens.len() && tokens[at as int] == token
}

/// Whether the tokens from `from` on spell `e`.
pub open spec fn spelled(e: ExprView, tokens: Seq<Token>, from: nat) -> bool
    decreases e, 0nat,
{
    match e {
        ExprView::Literal(value) => literal_at(tokens, from, value),
        ExprView::Variable(name) => token_at(tokens, from, name) && name.token_type
            == TokenType::Identifier,
        ExprView::Grouping(inner) => {
            &&& kind_at(tokens, from) == TokenType::LeftParen
            &&& spelled(*inner, tokens, from + 1)
            &&& kind_at(tokens, from + 1 + width(*inner)) == TokenType::RightParen
        },
        ExprView::Unary(operator, right) => {
            &&& token_at(tokens, from, operator)
            &&& operator.token_type == TokenType::Bang || operator.token_type == TokenType::Minus
            &&& spelled(*right, tokens, from + 1)
        },
        ExprView::Binary(left, operator, right) => {
            &&& spelled(*left, tokens, from)
            &&& token_at(tokens, from + width(*left), operator)
            &&& spelled(*right, tokens, from + width(*left) + 1)
        },
        ExprView::Logical(left, operator, right) => {
            &&& spelled(*left, tokens, from)
            &&& token_at(tokens, from + width(*left), operator)
            &&& spelled(*right, tokens, from + width(*left) + 1)
        },
        ExprView::Assign(name, value) => {
            &&& token_at(tokens, from, name)
            &&& name.token_type == TokenType::Identifier
            &&& kind_at(tokens, from + 1) == TokenType::Equal
            &&& spelled(*value, tokens, from + 2)
        },
        ExprView::Call(callee, paren, args) => {
            &&& spelled(*callee, tokens, from)
            &&& kind_at(tokens, from + width(*callee)) == TokenType::LeftParen
            &&& listed(args, args.len(), tokens, from + width(*callee) + 1)
            &&& token_at(
                tokens,
                from + width(*callee) + 1 + list_width(args, args.len()),
                paren,
            )
            &&& paren.token_type == TokenType::RightParen
        },
    }
}

/// Whether the tokens from `from` on spell the first `n` expressions of
/// `list`, with a comma between each two.
pub open spec fn listed(list: Seq<ExprView>, n: nat, tokens: Seq<Token>, from: nat) -> bool
    decreases list, n,
{
    if n == 0 {
        true
    } else if n > list.len() {
        false
    } else if n == 1 {
        spelled(list[0], tokens, from)
    } else {
        &&& listed(list, (n - 1) as nat, tokens, from)
        &&& kind_at(tokens, from + list_width(list, (n - 1) as nat)) == TokenType::Comma
        &&& spelled(list[n - 1], tokens, from + list_width(list, (n - 1) as nat) + 1)
    }
}

proof fn lemma_prefix(list: Seq<ExprView>, n: nat, more: ExprView, tokens: Seq<Token>, from: nat)
    requires
        n <= list.len(),
    ensures
        list_width(list.push(more), n) == list_width(list, n),
        listed(list.push(more), n, tokens, from) == listed(list, n, tokens, from),
    decreases n,
{
    if n > 1 {
        lemma_prefix(list, (n - 1) as nat, more, tokens, from);
        assert(list.push(more)[n - 1] == list[n - 1]);
    } else if n == 1 {
        assert(list.push(more)[0] == list[0]);
    }
}

proof fn lemma_primary(tokens: Seq<Token>, c: Cursor)
    ensures
        primary(tokens, c).outcome matches Ok(e) ==> spelled(e, tokens, c.position) && primary(
            tokens,
            c,
        ).cursor.position == c.position + width(e),
    decreases remaining(tokens, c.position), 0nat,
{
    if check(tokens, c.position, TokenType::LeftParen) {
        lemma_grouping(tokens, c.step());
    }
}

proof fn lemma_grouping(tokens: Seq<Token>, c: Cursor)
    ensures
        grouping(tokens, c).outcome matches Ok(e) ==> {
            &&& e matches ExprView::Grouping(inner)
            &&& spelled(*inner, tokens, c.position)
            &&& kind_at(tokens, c.position + width(*inner)) == TokenType::RightParen
            &&& grouping(tokens, c).cursor.position == c.position + width(*inner) + 1
        },
    decreases remaining(tokens, c.position), 17nat,
{
    lemma_expression(tokens, c);
}

proof fn lemma_listed_push(
    collected: Seq<ExprView>,
    e: ExprView,
    tokens: Seq<Token>,
    from: nat,
    at: nat,
)
    requires
        spelled(e, tokens, at),
        collected.len() == 0 ==> at == from,
        collected.len() > 0 ==> {
            &&& listed(collected, collected.len(), tokens, from)
            &&& at == from + list_width(collected, collected.len()) + 1
            &&& kind_at(tokens, (at - 1) as nat) == TokenType::Comma
        },
    ensures
        listed(collected.push(e), collected.len() + 1, tokens, from),
        from + list_width(collected.push(e), collected.len() + 1) == at + width(e),
{
    let known = collected.push(e);
    lemma_prefix(collected, collected.len(), e, tokens, from);
    assert(known[collected.len() as int] == e);
    assert(known.len() == collected.len() + 1);
}

proof fn lemma_arguments(tokens: Seq<Token>, c: Cursor, collected: Seq<ExprView>, from: nat)
    requires
        collected.len() == 0 ==> c.position == from,
        collected.len() > 0 ==> {
            &&& listed(collected, collected.len(), tokens, from)
            &&& c.position == from + list_width(collected, collected.len()) + 1
            &&& kind_at(tokens, (c.position - 1) as nat) == TokenType::Comma
        },
    ensures
        arguments(tokens, c, collected).outcome matches Ok(list) ==> {
            &&& listed(list, list.len(), tokens, from)
            &&& arguments(tokens, c, collected).cursor.position == from + list_width(
                list,
                list.len(),
            )
        },
    decreases remaining(tokens, c.position), 17nat,
{
    let noted = if collected.len() >= crate::grammar::limit() {
        crate::grammar::remark(tokens, c, "Can't have more than 255 arguments"@)
    } else {
        c
    };
    assert(noted.position == c.position);
    lemma_expression(tokens, noted);
    let argument = expression(tokens, noted).since(noted);
    if let Ok(e) = argument.outcome {
        let known = collected.push(e);
        lemma_listed_push(collected, e, tokens, from, c.position);
        assert(argument.cursor.position == c.position + width(e));
        if check(tokens, argument.cursor.position, TokenType::Comma) {
            assert(known.len() > 0);
            assert(argument.cursor.step().position == from + list_width(known, known.len()) + 1);
            lemma_arguments(tokens, argument.cursor.step(), known, from);
        }
    }
}

proof fn lemma_finish_call(tokens: Seq<Token>, c: Cursor, callee: ExprView)
    ensures
        finish_call(tokens, c, callee).outcome matches Ok(e) ==> {
            &&& e matches ExprView::Call(head, paren, args)
            &&& *head == callee
            &&& listed(args, args.len(), tokens, c.position)
            &&& token_at(tokens, c.position + list_width(args, args.len()), paren)
            &&& paren.token_type == TokenType::RightParen
            &&& finish_call(tokens, c, callee).cursor.position == c.position + list_width(
                args,
                args.len(),
            ) + 1
        },
    decreases remaining(tokens, c.position), 18nat,
{
    if !check(tokens, c.position, TokenType::RightParen) {
        lemma_arguments(tokens, c, Seq::<ExprView>::empty(), c.position);
    }
}

proof fn lemma_call_rest(tokens: Seq<Token>, c: Cursor, callee: ExprView, from: nat)
    requires
        spelled(callee, tokens, from),
        c.position == from + width(callee),
    ensures
        call_rest(tokens, c, callee).outcome matches Ok(e) ==> spelled(e, tokens, from)
            && call_rest(tokens, c, callee).cursor.position == from + width(e),
    decreases remaining(tokens, c.position), 0nat,
{
    if check(tokens, c.position, TokenType::LeftParen) {
        lemma_finish_call(tokens, c.step(), callee);
        let applied = finish_call(tokens, c.step(), callee).since(c.step());
        if let Ok(e) = applied.outcome {
            assert(spelled(e, tokens, from));
            lemma_call_rest(tokens, applied.cursor, e, from);
        }
    }
}

proof fn lemma_call(tokens: Seq<Token>, c: Cursor)
    ensures
        call(tokens, c).outcome matches Ok(e) ==> spelled(e, tokens, c.position) && call(
            tokens,
            c,
        ).cursor.position == c.position + width(e),
    decreases remaining(tokens, c.position), 1nat,
{
    lemma_primary(tokens, c);
    let callee = primary(tokens, c).since(c);
    if let Ok(e) = callee.outcome {
        lemma_call_rest(tokens, callee.cursor, e, c.position);
    }
}

proof fn lemma_unary(tokens: Seq<Token>, c: Cursor)
    ensures
        unary(tokens, c).outcome matches Ok(e) ==> spelled(e, tokens, c.position) && unary(
            tokens,
            c,
        ).cursor.position == c.position + width(e),
    decreases remaining(tokens, c.position), 2nat,
{
    if check(tokens, c.position, TokenType::Bang) || check(tokens, c.position, TokenType::Minus) {
        lemma_unary(tokens, c.step());
    } else {
        lemma_call(tokens, c);
    }
}

proof fn lemma_operand(tokens: Seq<Token>, c: Cursor, level: nat)
    ensures
        operand(tokens, c, level).outcome matches Ok(e) ==> spelled(e, tokens, c.position)
            && operand(tokens, c, level).cursor.position == c.position + width(e),
    decreases remaining(tokens, c.position), (crate::grammar::binary_rank(level) - 1) as nat,
{
    if level >= 5 {
        lemma_unary(tokens, c);
    } else {
        lemma_binary(tokens, c, level + 1);
    }
}

proof fn lemma_binary_rest(tokens: Seq<Token>, c: Cursor, level: nat, left: ExprView, from: nat)
    requires
        spelled(left, tokens, from),
        c.position == from + width(left),
    ensures
        binary_rest(tokens, c, level, left).outcome matches Ok(e) ==> spelled(e, tokens, from)
            && binary_rest(tokens, c, level, left).cursor.position == from + width(e),
    decreases remaining(tokens, c.position), 0nat,
{
    if !crate::grammar::at_end(tokens, c.position) && level_has(level, kind_at(tokens, c.position)) {
        lemma_operand(tokens, c.step(), level);
        let right = operand(tokens, c.step(), level).since(c.step());
        if let Ok(r) = right.outcome {
            let joined = crate::grammar::join(level, left, tokens[c.position as int], r);
            assert(spelled(joined, tokens, from));
            assert(width(joined) == width(left) + 1 + width(r));
            lemma_binary_rest(tokens, right.cursor, level, joined, from);
        }
    }
}

proof fn lemma_binary(tokens: Seq<Token>, c: Cursor, level: nat)
    ensures
        binary(tokens, c, level).outcome matches Ok(e) ==> spelled(e, tokens, c.position)
            && binary(tokens, c, level).cursor.position == c.position + width(e),
    decreases remaining(tokens, c.position), crate::grammar::binary_rank(level),
{
    lemma_operand(tokens, c, level);
    let left = operand(tokens, c, level).since(c);
    if let Ok(e) = left.outcome {
        lemma_binary_rest(tokens, left.cursor, level, e, c.position);
    }
}

proof fn lemma_assignment(tokens: Seq<Token>, c: Cursor)
    ensures
        assignment(tokens, c).outcome matches Ok(e) ==> spelled(e, tokens, c.position)
            && assignment(tokens, c).cursor.position == c.position + width(e),
    decreases remaining(tokens, c.position), 15nat,
{
    lemma_binary(tokens, c, 0);
    let target = binary(tokens, c, 0).since(c);
    if let Ok(e) = target.outcome {
        if check(tokens, target.cursor.position, TokenType::Equal) {
            lemma_assignment(tokens, target.cursor.step());
        }
    }
}

proof fn lemma_expression(tokens: Seq<Token>, c: Cursor)
    ensures
        expression(tokens, c).outcome matches Ok(e) ==> spelled(e, tokens, c.position)
            && expression(tokens, c).cursor.position == c.position + width(e),
    decreases remaining(tokens, c.position), 16nat,
{
    lemma_assignment(tokens, c);
}

/// Whatever expression the grammar finds at a position is spelled by the
/// tokens from that position on, and the parser stops right behind it: the
/// tree accounts for every token consumed, in order, and for no other.
pub proof fn lemma_expression_spelled(tokens: Seq<Token>, c: Cursor)
    ensures
        expression(tokens, c).outcome matches Ok(e) ==> spelled(e, tokens, c.position)
            && expression(tokens, c).cursor.position == c.position + width(e),
{
    lemma_expression(tokens, c);
}

} // verus!
