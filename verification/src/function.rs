//! Functions as values: closures.

use crate::ast::{stmts_view, Stmt};
use crate::environment::EnvPtr;
use crate::interpreter::{values_view, Interpreter};
use crate::machine;
use crate::machine::FunctionView;
use crate::token::{Token, Value};
use vstd::prelude::*;
use vstd::string::StringExecFns;

verus! {

/// A declared function together with the scope it was declared in. The
/// closure borrows its name, parameters and body from the program; every
/// call shares them and the scope.
#[derive(Clone, Copy, Debug)]
pub struct EmojiFunction<'a> {
    pub name: &'a Token,
    pub params: &'a Vec<Token>,
    pub body: &'a Vec<Stmt>,
    pub closure: EnvPtr,
}

impl<'a> View for EmojiFunction<'a> {
    type V = FunctionView;

    open spec fn view(&self) -> FunctionView {
        FunctionView {
            name: *self.name,
            params: self.params@,
            body: stmts_view(self.body@),
            closure: self.closure as nat,
        }
    }
}

impl<'a> EmojiFunction<'a> {
    pub fn new_from(
        name: &'a Token,
        params: &'a Vec<Token>,
        body: &'a Vec<Stmt>,
        closure: EnvPtr,
    ) -> (function: Self)
        ensures
            function.name == name,
            function.params == params,
            function.body == body,
            function.closure == closure,
    {
        Self { name, params, body, closure }
    }

    /// How the function is printed: `<fn NAME>`.
    pub fn to_text(&self) -> (text: String)
        ensures
            text@ == "<fn "@ + self.name.lexeme@ + ">"@,
    {
        let mut text = String::from_str("<fn ");
        text.append(self.name.lexeme.as_str());
        text.append(">");
        assert(text@ =~= "<fn "@ + self.name.lexeme@ + ">"@);
        text
    }

}

/// Something that can be called with a list of values.
pub trait Callable<'a> {
    /// What the callable is, as a model.
    spec fn model(&self) -> FunctionView;

    /// The number of arguments a call must supply.
    fn arity(&self) -> (n: usize)
        ensures
            n == self.model().params.len(),
    ;

    /// Enters the callable: a fresh scope inside its closure's scope binds
    /// the parameters to `args` by position and becomes current, and the
    /// body is scheduled above the boundary that leads back to the caller.
    /// The call's value stands in the register once the machine has come
    /// down to that boundary: nil, unless a `return` set it.
    fn call(&self, interpreter: &mut Interpreter<'a>, args: Vec<Value>)
        requires
            machine::well_formed(old(interpreter)@),
            self.model().closure < old(interpreter)@.scopes.len(),
        ensures
            final(interpreter)@ == machine::call(
                old(interpreter)@,
                self.model(),
                values_view(args@),
            ),
            machine::well_formed(final(interpreter)@),
    ;
}

impl<'a> Callable<'a> for EmojiFunction<'a> {
    open spec fn model(&self) -> FunctionView {
        self@
    }

    fn arity(&self) -> (n: usize) {
        self.params.len()
    }

    fn call(&self, interpreter: &mut Interpreter<'a>, args: Vec<Value>) {
        proof {
            machine::lemma_enter_well_formed(interpreter@, self@, values_view(args@));
        }
        let back = interpreter.mark();
        let env = interpreter.open_scope(self.closure);
        let mut i: usize = 0;
        while i < self.params.len() && i < args.len()
            invariant
                i <= self.params@.len(),
                i <= args@.len(),
                env == old(interpreter)@.scopes.len(),
                interpreter@.scopes.len() == old(interpreter)@.scopes.len() + 1,
                interpreter@ == old(interpreter)@.with_scopes(
                    machine::bound(
                        crate::environment::enclosed(
                            old(interpreter)@.scopes,
                            self.closure as nat,
                        ),
                        env as nat,
                        self.params@,
                        values_view(args@),
                        i as nat,
                    ),
                ),
            decreases self.params@.len() - i,
        {
            interpreter.define(env, self.params[i].lexeme.clone(), args[i].clone());
            i += 1;
        }
        interpreter.enter(self.body, env, back);
    }
}

} // verus!
