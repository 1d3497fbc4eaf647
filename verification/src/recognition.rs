//! The parser finds every tree.
//!
//! [`crate::spelling`] says that a tree the parser yields is spelled by the
//! tokens it consumed, [`crate::precedence`] that it is layered. This module
//! proves the converse: wherever the tokens spell a layered tree, and the
//! token behind it cannot carry the expression on, the parser yields
//! exactly that tree, stops behind it, and reports nothing. So the parser
//! computes the one reading that precedence allows.
//!
//! The one proviso is the remark about long argument lists: a tree is
//! modest if none of its calls has more than 255 arguments, and only a
//! modest tree is found without a report.

use crate::ast::ExprView;
use crate::grammar::{
    arguments, assignment, at_end, binary, binary_rank, binary_rest, call, call_rest, check,
    expression, finish_call, grouping, join, kind_at, level_has, limit, operand, primary, unary,
    Cursor, Parsed,
};
use crate::precedence::{layer_of, layered, tightness};
use crate::spelling::{list_width, listed, spelled, width};
use crate::token::{Token, TokenType};
use vstd::prelude::*;

verus! {

/// Whether `kind` is a binary operator.
pub open spec fn is_operator(kind: TokenType) -> bool {
    kind == TokenType::Or || kind == TokenType::And || kind == TokenType::BangEqual || kind
        == TokenType::EqualEqual || kind == TokenType::Greater || kind == TokenType::GreaterEqual
        || kind == TokenType::Less || kind == TokenType::LessEqual || kind == TokenType::Minus
        || kind == TokenType::Plus || kind == TokenType::TextConcat || kind == TokenType::Slash
        || kind == TokenType::Star
}

/// Whether a token of `kind` behind an expression leaves it as it is for
/// every layer from `bound` on: it opens no argument list, and if it is an
/// operator, then one of a layer below `bound`.
pub open spec fn stops(kind: TokenType, bound: nat) -> bool {
    kind != TokenType::LeftParen && (is_operator(kind) ==> layer_of(kind) < bound)
}

/// Whether a token of `kind` behind an expression ends it: it is no
/// operator, opens no argument list and is no `=`.
pub open spec fn closes(kind: TokenType) -> bool {
    kind != TokenType::LeftParen && !is_operator(kind) && kind != TokenType::Equal
}

/// Whether no call in `e` has more arguments than may go without a
/// remark.
pub open spec fn modest(e: ExprView) -> bool
    decreases e,
{
    match e {
        ExprView::Literal(_) => true,
        ExprView::Variable(_) => true,
        ExprView::Grouping(inner) => modest(*inner),
        ExprView::Unary(_, right) => modest(*right),
        ExprView::Binary(left, _, right) => modest(*left) && modest(*right),
        ExprView::Logical(left, _, right) => modest(*left) && modest(*right),
        ExprView::Assign(_, value) => modest(*value),
        ExprView::Call(callee, _, args) => {
            &&& modest(*callee)
            &&& args.len() <= limit()
            &&& forall|i: int| 0 <= i < args.len() ==> modest(#[trigger] args[i])
        },
    }
}

/// Whether the tokens from `from` on spell `e`, and `e` is layered and
/// modest.
pub open spec fn fits(e: ExprView, tokens: Seq<Token>, from: nat) -> bool {
    layered(e) && modest(e) && spelled(e, tokens, from)
}

/// The result of finding `e` at `c`: the tree, the position behind it, and
/// no new report.
pub open spec fn found(e: ExprView, c: Cursor) -> Parsed<ExprView> {
    Parsed {
        outcome: Ok(e),
        cursor: Cursor { position: c.position + width(e), reports: c.reports },
    }
}

/// The cursor behind `e` found at `c`.
pub open spec fn behind(e: ExprView, c: Cursor) -> Cursor {
    Cursor { position: c.position + width(e), reports: c.reports }
}

/// Where the `i`-th expression of a list begins, counted from the
/// beginning of the list.
pub open spec fn start_of(list: Seq<ExprView>, i: nat) -> nat {
    if i == 0 {
        0
    } else {
        list_width(list, i) + 1
    }
}

proof fn lemma_listed_at(list: Seq<ExprView>, n: nat, i: nat, tokens: Seq<Token>, from: nat)
    requires
        listed(list, n, tokens, from),
        i < n,
        n <= list.len(),
    ensures
        spelled(list[i as int], tokens, from + start_of(list, i)),
        i >= 1 ==> kind_at(tokens, from + list_width(list, i)) == TokenType::Comma,
        list_width(list, i + 1) == start_of(list, i) + width(list[i as int]),
        width(list[i as int]) <= list_width(list, n),
    decreases n,
{
    if i + 1 < n {
        lemma_listed_at(list, (n - 1) as nat, i, tokens, from);
    }
}

proof fn lemma_first_token(e: ExprView, tokens: Seq<Token>, from: nat)
    requires
        layered(e),
        spelled(e, tokens, from),
        tightness(e) >= 8,
    ensures
        !check(tokens, from, TokenType::Bang),
        !check(tokens, from, TokenType::Minus),
    decreases e,
{
    if let ExprView::Call(callee, _, _) = e {
        lemma_first_token(*callee, tokens, from);
    }
}

proof fn lemma_arguments(tokens: Seq<Token>, c: Cursor, e: ExprView, i: nat, from: nat)
    requires
        e matches ExprView::Call(_, _, args) && {
            &&& i < args.len()
            &&& args.len() <= limit()
            &&& listed(args, args.len(), tokens, from)
            &&& kind_at(tokens, from + list_width(args, args.len())) == TokenType::RightParen
            &&& forall|k: int| 0 <= k < args.len() ==> layered(#[trigger] args[k])
            &&& forall|k: int| 0 <= k < args.len() ==> modest(#[trigger] args[k])
            &&& c.position == from + start_of(args, i)
        },
    ensures
        e matches ExprView::Call(_, _, args) && arguments(tokens, c, args.take(i as int))
            == (Parsed {
            outcome: Ok(args),
            cursor: Cursor {
                position: from + list_width(args, args.len()),
                reports: c.reports,
            },
        }),
    decreases width(e), 0nat, e->Call_2.len() - i,
{
    let args = e->Call_2;
    let collected = args.take(i as int);
    let arg = args[i as int];
    lemma_listed_at(args, args.len(), i, tokens, from);
    let after = c.position + width(arg);
    assert(after == from + list_width(args, i + 1));
    if i + 1 < args.len() {
        lemma_listed_at(args, args.len(), i + 1, tokens, from);
        assert(kind_at(tokens, after) == TokenType::Comma);
    } else {
        assert(kind_at(tokens, after) == TokenType::RightParen);
    }
    lemma_expression(tokens, c, arg);
    assert(collected.push(arg) =~= args.take(i + 1 as int));
    if i + 1 < args.len() {
        lemma_arguments(tokens, behind(arg, c).step(), e, i + 1, from);
    } else {
        assert(args.take(i + 1 as int) =~= args);
    }
}

proof fn lemma_finish_call(tokens: Seq<Token>, c: Cursor, e: ExprView)
    requires
        e matches ExprView::Call(_, paren, args) && {
            &&& args.len() <= limit()
            &&& listed(args, args.len(), tokens, c.position)
            &&& c.position + list_width(args, args.len()) < tokens.len()
            &&& tokens[c.position + list_width(args, args.len()) as int] == paren
            &&& paren.token_type == TokenType::RightParen
            &&& forall|k: int| 0 <= k < args.len() ==> layered(#[trigger] args[k])
            &&& forall|k: int| 0 <= k < args.len() ==> modest(#[trigger] args[k])
        },
    ensures
        e matches ExprView::Call(callee, _, args) && finish_call(tokens, c, *callee) == (Parsed {
            outcome: Ok(e),
            cursor: Cursor {
                position: c.position + list_width(args, args.len()) + 1,
                reports: c.reports,
            },
        }),
    decreases width(e), 1nat, 0nat,
{
    let args = e->Call_2;
    let close = c.position + list_width(args, args.len());
    assert(check(tokens, close, TokenType::RightParen));
    if args.len() > 0 {
        lemma_listed_at(args, args.len(), 0, tokens, c.position);
        lemma_first_of_expression(args[0], tokens, c.position);
        assert(args.take(0) =~= Seq::<ExprView>::empty());
        lemma_arguments(tokens, c, e, 0, c.position);
    } else {
        assert(args =~= Seq::<ExprView>::empty());
    }
}

/// An expression never begins with a closing parenthesis.
proof fn lemma_first_of_expression(e: ExprView, tokens: Seq<Token>, from: nat)
    requires
        spelled(e, tokens, from),
    ensures
        !check(tokens, from, TokenType::RightParen),
    decreases e,
{
    match e {
        ExprView::Binary(left, _, _) => lemma_first_of_expression(*left, tokens, from),
        ExprView::Logical(left, _, _) => lemma_first_of_expression(*left, tokens, from),
        ExprView::Call(callee, _, _) => lemma_first_of_expression(*callee, tokens, from),
        _ => {},
    }
}

proof fn lemma_primary(tokens: Seq<Token>, c: Cursor, e: ExprView)
    requires
        fits(e, tokens, c.position),
        tightness(e) >= 9,
    ensures
        primary(tokens, c) == found(e, c),
    decreases width(e), 2nat, 0nat,
{
    if let ExprView::Grouping(inner) = e {
        lemma_grouping(tokens, c.step(), *inner);
    }
}

proof fn lemma_grouping(tokens: Seq<Token>, c: Cursor, inner: ExprView)
    requires
        fits(inner, tokens, c.position),
        kind_at(tokens, c.position + width(inner)) == TokenType::RightParen,
    ensures
        grouping(tokens, c) == (Parsed {
            outcome: Ok(ExprView::Grouping(Box::new(inner))),
            cursor: Cursor { position: c.position + width(inner) + 1, reports: c.reports },
        }),
    decreases width(inner), 32nat, 0nat,
{
    lemma_expression(tokens, c, inner);
    assert(check(tokens, c.position + width(inner), TokenType::RightParen));
}

proof fn lemma_call_begun(tokens: Seq<Token>, c: Cursor, e: ExprView)
    requires
        fits(e, tokens, c.position),
        tightness(e) >= 8,
    ensures
        call(tokens, c) == call_rest(tokens, behind(e, c), e),
    decreases width(e), 3nat, 0nat,
{
    if let ExprView::Call(callee, paren, args) = e {
        lemma_call_begun(tokens, c, *callee);
        let open = behind(*callee, c);
        lemma_finish_call(tokens, open.step(), e);
    } else {
        lemma_primary(tokens, c, e);
    }
}

proof fn lemma_call(tokens: Seq<Token>, c: Cursor, e: ExprView)
    requires
        fits(e, tokens, c.position),
        tightness(e) >= 8,
        kind_at(tokens, c.position + width(e)) != TokenType::LeftParen,
    ensures
        call(tokens, c) == found(e, c),
    decreases width(e), 4nat, 0nat,
{
    lemma_call_begun(tokens, c, e);
}

proof fn lemma_unary(tokens: Seq<Token>, c: Cursor, e: ExprView)
    requires
        fits(e, tokens, c.position),
        tightness(e) >= 7,
        kind_at(tokens, c.position + width(e)) != TokenType::LeftParen,
    ensures
        unary(tokens, c) == found(e, c),
    decreases width(e), 5nat, 0nat,
{
    if let ExprView::Unary(operator, right) = e {
        lemma_unary(tokens, c.step(), *right);
    } else {
        lemma_first_token(e, tokens, c.position);
        lemma_call(tokens, c, e);
    }
}

proof fn lemma_operand(tokens: Seq<Token>, c: Cursor, level: nat, e: ExprView)
    requires
        level <= 5,
        fits(e, tokens, c.position),
        tightness(e) >= level + 2,
        stops(kind_at(tokens, c.position + width(e)), level + 1),
    ensures
        operand(tokens, c, level) == found(e, c),
    decreases width(e), 6 + 4 * (5 - level), 0nat,
{
    if level >= 5 {
        lemma_unary(tokens, c, e);
    } else {
        lemma_binary(tokens, c, level + 1, e);
    }
}

proof fn lemma_binary_begun(tokens: Seq<Token>, c: Cursor, level: nat, e: ExprView)
    requires
        level <= 5,
        fits(e, tokens, c.position),
        tightness(e) >= level + 1,
        stops(kind_at(tokens, c.position + width(e)), level + 1),
    ensures
        binary(tokens, c, level) == binary_rest(tokens, behind(e, c), level, e),
    decreases width(e), 8 + 4 * (5 - level), 0nat,
{
    if tightness(e) == level + 1 {
        match e {
            ExprView::Binary(left, operator, right) => {
                lemma_binary_joined(tokens, c, level, *left, operator, *right);
            },
            ExprView::Logical(left, operator, right) => {
                lemma_binary_joined(tokens, c, level, *left, operator, *right);
            },
            _ => {},
        }
    } else {
        lemma_operand(tokens, c, level, e);
    }
}

proof fn lemma_binary_joined(
    tokens: Seq<Token>,
    c: Cursor,
    level: nat,
    left: ExprView,
    operator: Token,
    right: ExprView,
)
    requires
        level <= 5,
        fits(join(level, left, operator, right), tokens, c.position),
        layer_of(operator.token_type) == level,
        stops(
            kind_at(tokens, c.position + width(join(level, left, operator, right))),
            level + 1,
        ),
    ensures
        binary(tokens, c, level) == binary_rest(
            tokens,
            behind(join(level, left, operator, right), c),
            level,
            join(level, left, operator, right),
        ),
    decreases width(left) + 1 + width(right), 7 + 4 * (5 - level), 0nat,
{
    let e = join(level, left, operator, right);
    assert(width(e) == width(left) + 1 + width(right));
    assert(level_has(level, operator.token_type));
    lemma_binary_begun(tokens, c, level, left);
    let middle = behind(left, c);
    assert(tokens[middle.position as int] == operator);
    lemma_operand(tokens, middle.step(), level, right);
    assert(behind(right, middle.step()) == behind(e, c));
}

proof fn lemma_binary(tokens: Seq<Token>, c: Cursor, level: nat, e: ExprView)
    requires
        level <= 5,
        fits(e, tokens, c.position),
        tightness(e) >= level + 1,
        stops(kind_at(tokens, c.position + width(e)), level),
    ensures
        binary(tokens, c, level) == found(e, c),
    decreases width(e), 9 + 4 * (5 - level), 0nat,
{
    lemma_binary_begun(tokens, c, level, e);
}

proof fn lemma_assignment(tokens: Seq<Token>, c: Cursor, e: ExprView)
    requires
        fits(e, tokens, c.position),
        closes(kind_at(tokens, c.position + width(e))),
    ensures
        assignment(tokens, c) == found(e, c),
    decreases width(e), 30nat, 0nat,
{
    if let ExprView::Assign(name, value) = e {
        let target = ExprView::Variable(name);
        assert(fits(target, tokens, c.position));
        lemma_binary(tokens, c, 0, target);
        lemma_assignment(tokens, behind(target, c).step(), *value);
    } else {
        lemma_binary(tokens, c, 0, e);
    }
}

proof fn lemma_expression(tokens: Seq<Token>, c: Cursor, e: ExprView)
    requires
        fits(e, tokens, c.position),
        closes(kind_at(tokens, c.position + width(e))),
    ensures
        expression(tokens, c) == found(e, c),
    decreases width(e), 31nat, 0nat,
{
    lemma_assignment(tokens, c, e);
}

/// The parser finds every tree: where the tokens from the cursor on spell
/// a layered, modest tree, and the token behind it ends the expression,
/// the grammar yields that tree, stops behind it, and reports nothing.
pub proof fn lemma_expression_found(tokens: Seq<Token>, c: Cursor, e: ExprView)
    requires
        layered(e),
        modest(e),
        spelled(e, tokens, c.position),
        closes(kind_at(tokens, c.position + width(e))),
    ensures
        expression(tokens, c) == found(e, c),
{
    lemma_expression(tokens, c, e);
}

/// One reading only: two layered, modest trees spelled at the same
/// position, each with a token behind it that ends the expression, are the
/// same tree.
pub proof fn lemma_one_reading(tokens: Seq<Token>, from: nat, first: ExprView, second: ExprView)
    requires
        fits(first, tokens, from),
        fits(second, tokens, from),
        closes(kind_at(tokens, from + width(first))),
        closes(kind_at(tokens, from + width(second))),
    ensures
        first == second,
{
    let c = Cursor { position: from, reports: Seq::empty() };
    lemma_expression(tokens, c, first);
    lemma_expression(tokens, c, second);
}

} // verus!
