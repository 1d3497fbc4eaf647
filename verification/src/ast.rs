//! The syntax tree: expressions and statements, with their mathematical
//! models.
//!
//! A node owns its children. The executable tree keeps child lists in `Vec`s;
//! the model of a tree ([`ExprView`], [`StmtView`]) keeps them in `Seq`s, and
//! every contract that speaks of a tree speaks of its model.

use crate::token::{Token, Value, ValueView};
use vstd::prelude::*;

verus! {

/// An expression.
#[derive(Debug, PartialEq)]
pub enum Expr {
    Binary(Box<Expr>, Token, Box<Expr>),
    Unary(Token, Box<Expr>),
    Literal(Value),
    Grouping(Box<Expr>),
    Variable(Token),
    Assign(Token, Box<Expr>),
    Logical(Box<Expr>, Token, Box<Expr>),
    Call(Box<Expr>, Token, Vec<Expr>),
}

/// A statement.
#[derive(Debug, PartialEq)]
pub enum Stmt {
    Expression(Expr),
    Print(Expr),
    Var(Token, Option<Expr>),
    Block(Vec<Stmt>),
    If(Expr, Box<Stmt>, Box<Option<Stmt>>),
    While(Expr, Box<Stmt>),
    Func(Token, Vec<Token>, Vec<Stmt>),
    Return(Token, Option<Expr>),
}

/// The model of an [`Expr`].
pub enum ExprView {
    Binary(Box<ExprView>, Token, Box<ExprView>),
    Unary(Token, Box<ExprView>),
    Literal(ValueView),
    Grouping(Box<ExprView>),
    Variable(Token),
    Assign(Token, Box<ExprView>),
    Logical(Box<ExprView>, Token, Box<ExprView>),
    Call(Box<ExprView>, Token, Seq<ExprView>),
}

/// The model of a [`Stmt`].
pub enum StmtView {
    Expression(ExprView),
    Print(ExprView),
    Var(Token, Option<ExprView>),
    Block(Seq<StmtView>),
    If(ExprView, Box<StmtView>, Option<Box<StmtView>>),
    While(ExprView, Box<StmtView>),
    Func(Token, Seq<Token>, Seq<StmtView>),
    Return(Token, Option<ExprView>),
}

/// The model of an expression, by recursion on the tree.
#[verifier::opaque]
pub open spec fn expr_view(e: Expr) -> ExprView
    decreases e,
{
    match e {
        Expr::Binary(left, operator, right) => ExprView::Binary(
            Box::new(expr_view(*left)),
            operator,
            Box::new(expr_view(*right)),
        ),
        Expr::Unary(operator, right) => ExprView::Unary(operator, Box::new(expr_view(*right))),
        Expr::Literal(value) => ExprView::Literal(value@),
        Expr::Grouping(inner) => ExprView::Grouping(Box::new(expr_view(*inner))),
        Expr::Variable(name) => ExprView::Variable(name),
        Expr::Assign(name, value) => ExprView::Assign(name, Box::new(expr_view(*value))),
        Expr::Logical(left, operator, right) => ExprView::Logical(
            Box::new(expr_view(*left)),
            operator,
            Box::new(expr_view(*right)),
        ),
        Expr::Call(callee, paren, args) => ExprView::Call(
            Box::new(expr_view(*callee)),
            paren,
            Seq::new(
                args@.len(),
                |i: int|
                    if 0 <= i < args.len() {
                        expr_view(args[i])
                    } else {
                        arbitrary()
                    },
            ),
        ),
    }
}

impl View for Expr {
    type V = ExprView;

    open spec fn view(&self) -> ExprView {
        expr_view(*self)
    }
}

/// The models of a list of expressions, in order.
pub open spec fn exprs_view(list: Seq<Expr>) -> Seq<ExprView> {
    Seq::new(list.len(), |i: int| list[i]@)
}

/// The model of an optional expression.
pub open spec fn expr_option_view(e: Option<Expr>) -> Option<ExprView> {
    match e {
        Some(e) => Some(e@),
        None => None,
    }
}

/// The model of an optional statement.
pub open spec fn stmt_option_view(s: Option<Stmt>) -> Option<StmtView> {
    match s {
        Some(s) => Some(s@),
        None => None,
    }
}

/// The model of a statement, by recursion on the tree.
#[verifier::opaque]
pub open spec fn stmt_view(s: Stmt) -> StmtView
    decreases s,
{
    match s {
        Stmt::Expression(e) => StmtView::Expression(e@),
        Stmt::Print(e) => StmtView::Print(e@),
        Stmt::Var(name, initializer) => StmtView::Var(name, expr_option_view(initializer)),
        Stmt::Block(stmts) => StmtView::Block(
            Seq::new(
                stmts@.len(),
                |i: int|
                    if 0 <= i < stmts.len() {
                        stmt_view(stmts[i])
                    } else {
                        arbitrary()
                    },
            ),
        ),
        Stmt::If(condition, then_branch, else_branch) => StmtView::If(
            condition@,
            Box::new(stmt_view(*then_branch)),
            match *else_branch {
                Some(branch) => Some(Box::new(stmt_view(branch))),
                None => None,
            },
        ),
        Stmt::While(condition, body) => StmtView::While(condition@, Box::new(stmt_view(*body))),
        Stmt::Func(name, params, body) => StmtView::Func(
            name,
            params@,
            Seq::new(
                body@.len(),
                |i: int|
                    if 0 <= i < body.len() {
                        stmt_view(body[i])
                    } else {
                        arbitrary()
                    },
            ),
        ),
        Stmt::Return(keyword, value) => StmtView::Return(keyword, expr_option_view(value)),
    }
}

impl View for Stmt {
    type V = StmtView;

    open spec fn view(&self) -> StmtView {
        stmt_view(*self)
    }
}

/// The models of a list of statements, in order.
pub open spec fn stmts_view(list: Seq<Stmt>) -> Seq<StmtView> {
    Seq::new(list.len(), |i: int| list[i]@)
}

/// The model of each kind of expression is that kind of the models of its
/// parts.
pub proof fn lemma_expr_view(e: Expr)
    ensures
        match e {
            Expr::Binary(left, operator, right) => e@ == ExprView::Binary(
                Box::new(left@),
                operator,
                Box::new(right@),
            ),
            Expr::Unary(operator, right) => e@ == ExprView::Unary(operator, Box::new(right@)),
            Expr::Literal(value) => e@ == ExprView::Literal(value@),
            Expr::Grouping(inner) => e@ == ExprView::Grouping(Box::new(inner@)),
            Expr::Variable(name) => e@ == ExprView::Variable(name),
            Expr::Assign(name, value) => e@ == ExprView::Assign(name, Box::new(value@)),
            Expr::Logical(left, operator, right) => e@ == ExprView::Logical(
                Box::new(left@),
                operator,
                Box::new(right@),
            ),
            Expr::Call(callee, paren, args) => e@ == ExprView::Call(
                Box::new(callee@),
                paren,
                exprs_view(args@),
            ),
        },
{
    reveal(expr_view);
    if let Expr::Call(callee, paren, args) = e {
        assert(e@->Call_2 =~= exprs_view(args@));
    }
}

/// The model of each kind of statement is that kind of the models of its
/// parts.
pub proof fn lemma_stmt_view(s: Stmt)
    ensures
        match s {
            Stmt::Expression(e) => s@ == StmtView::Expression(e@),
            Stmt::Print(e) => s@ == StmtView::Print(e@),
            Stmt::Var(name, initializer) => s@ == StmtView::Var(
                name,
                expr_option_view(initializer),
            ),
            Stmt::Block(stmts) => s@ == StmtView::Block(stmts_view(stmts@)),
            Stmt::If(condition, then_branch, else_branch) => s@ == StmtView::If(
                condition@,
                Box::new(then_branch@),
                match *else_branch {
                    Some(branch) => Some(Box::new(branch@)),
                    None => None,
                },
            ),
            Stmt::While(condition, body) => s@ == StmtView::While(condition@, Box::new(body@)),
            Stmt::Func(name, params, body) => s@ == StmtView::Func(
                name,
                params@,
                stmts_view(body@),
            ),
            Stmt::Return(keyword, value) => s@ == StmtView::Return(
                keyword,
                expr_option_view(value),
            ),
        },
{
    reveal(stmt_view);
    match s {
        Stmt::Block(stmts) => {
            assert(s@->Block_0 =~= stmts_view(stmts@));
        },
        Stmt::Func(name, params, body) => {
            assert(s@->Func_2 =~= stmts_view(body@));
        },
        _ => {},
    }
}

impl Stmt {
    pub fn expression(expr: Expr) -> (stmt: Self)
        ensures
            stmt == Stmt::Expression(expr),
            stmt@ == StmtView::Expression(expr@),
    {
        let stmt = Stmt::Expression(expr);
        proof {
            lemma_stmt_view(stmt);
        }
        stmt
    }

    pub fn print(expr: Expr) -> (stmt: Self)
        ensures
            stmt == Stmt::Print(expr),
            stmt@ == StmtView::Print(expr@),
    {
        let stmt = Stmt::Print(expr);
        proof {
            lemma_stmt_view(stmt);
        }
        stmt
    }

    /// A variable declaration.
    pub fn var(name: Token, initializer: Option<Expr>) -> (stmt: Self)
        ensures
            stmt == Stmt::Var(name, initializer),
            stmt@ == StmtView::Var(name, expr_option_view(initializer)),
    {
        let stmt = Stmt::Var(name, initializer);
        proof {
            lemma_stmt_view(stmt);
        }
        stmt
    }

    pub fn block(stmts: Vec<Stmt>) -> (stmt: Self)
        ensures
            stmt == Stmt::Block(stmts),
            stmt@ == StmtView::Block(stmts_view(stmts@)),
    {
        let stmt = Stmt::Block(stmts);
        proof {
            lemma_stmt_view(stmt);
        }
        stmt
    }

    pub fn if_(condition: Expr, then_branch: Stmt, else_branch: Option<Stmt>) -> (stmt: Self)
        ensures
            stmt == Stmt::If(condition, Box::new(then_branch), Box::new(else_branch)),
            stmt@ == StmtView::If(
                condition@,
                Box::new(then_branch@),
                match else_branch {
                    Some(branch) => Some(Box::new(branch@)),
                    None => None,
                },
            ),
    {
        let stmt = Stmt::If(condition, Box::new(then_branch), Box::new(else_branch));
        proof {
            lemma_stmt_view(stmt);
        }
        stmt
    }

    pub fn while_(condition: Expr, body: Stmt) -> (stmt: Self)
        ensures
            stmt == Stmt::While(condition, Box::new(body)),
            stmt@ == StmtView::While(condition@, Box::new(body@)),
    {
        let stmt = Stmt::While(condition, Box::new(body));
        proof {
            lemma_stmt_view(stmt);
        }
        stmt
    }

    pub fn func(name: Token, params: Vec<Token>, body: Vec<Stmt>) -> (stmt: Self)
        ensures
            stmt == Stmt::Func(name, params, body),
            stmt@ == StmtView::Func(name, params@, stmts_view(body@)),
    {
        let stmt = Stmt::Func(name, params, body);
        proof {
            lemma_stmt_view(stmt);
        }
        stmt
    }

    pub fn return_(keyword: Token, value: Option<Expr>) -> (stmt: Self)
        ensures
            stmt == Stmt::Return(keyword, value),
            stmt@ == StmtView::Return(keyword, expr_option_view(value)),
    {
        let stmt = Stmt::Return(keyword, value);
        proof {
            lemma_stmt_view(stmt);
        }
        stmt
    }
}

impl Expr {
    pub fn binary(left: Expr, operator: Token, right: Expr) -> (expr: Self)
        ensures
            expr == Expr::Binary(Box::new(left), operator, Box::new(right)),
            expr@ == ExprView::Binary(Box::new(left@), operator, Box::new(right@)),
    {
        let expr = Expr::Binary(Box::new(left), operator, Box::new(right));
        proof {
            lemma_expr_view(expr);
        }
        expr
    }

    pub fn unary(operator: Token, right: Expr) -> (expr: Self)
        ensures
            expr == Expr::Unary(operator, Box::new(right)),
            expr@ == ExprView::Unary(operator, Box::new(right@)),
    {
        let expr = Expr::Unary(operator, Box::new(right));
        proof {
            lemma_expr_view(expr);
        }
        expr
    }

    pub fn grouping(expr: Expr) -> (group: Self)
        ensures
            group == Expr::Grouping(Box::new(expr)),
            group@ == ExprView::Grouping(Box::new(expr@)),
    {
        let group = Expr::Grouping(Box::new(expr));
        proof {
            lemma_expr_view(group);
        }
        group
    }

    pub fn literal(value: Value) -> (expr: Self)
        ensures
            expr == Expr::Literal(value),
            expr@ == ExprView::Literal(value@),
    {
        let expr = Expr::Literal(value);
        proof {
            lemma_expr_view(expr);
        }
        expr
    }

    pub fn variable(variable: Token) -> (expr: Self)
        ensures
            expr == Expr::Variable(variable),
            expr@ == ExprView::Variable(variable),
    {
        let expr = Expr::Variable(variable);
        proof {
            lemma_expr_view(expr);
        }
        expr
    }

    pub fn assign(name: Token, value: Expr) -> (expr: Self)
        ensures
            expr == Expr::Assign(name, Box::new(value)),
            expr@ == ExprView::Assign(name, Box::new(value@)),
    {
        let expr = Expr::Assign(name, Box::new(value));
        proof {
            lemma_expr_view(expr);
        }
        expr
    }

    pub fn logical(left: Expr, operator: Token, right: Expr) -> (expr: Self)
        ensures
            expr == Expr::Logical(Box::new(left), operator, Box::new(right)),
            expr@ == ExprView::Logical(Box::new(left@), operator, Box::new(right@)),
    {
        let expr = Expr::Logical(Box::new(left), operator, Box::new(right));
        proof {
            lemma_expr_view(expr);
        }
        expr
    }

    pub fn call(callee: Expr, paren: Token, args: Vec<Expr>) -> (expr: Self)
        ensures
            expr == Expr::Call(Box::new(callee), paren, args),
            expr@ == ExprView::Call(Box::new(callee@), paren, exprs_view(args@)),
    {
        let expr = Expr::Call(Box::new(callee), paren, args);
        proof {
            lemma_expr_view(expr);
        }
        expr
    }

    /// The name this expression reads, where it is a bare variable: the
    /// only thing that can be assigned to.
    pub fn into_target(self) -> (name: Option<Token>)
        ensures
            match name {
                Some(n) => self@ == ExprView::Variable(n),
                None => !(self@ is Variable),
            },
    {
        proof {
            lemma_expr_view(self);
        }
        match self {
            Expr::Variable(name) => Some(name),
            _ => None,
        }
    }
}

} // verus!
