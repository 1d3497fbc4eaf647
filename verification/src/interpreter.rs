//! The evaluator: the machine of [`crate::machine`], executable.
//!
//! The interpreter borrows the program it runs. A host drives it: it calls
//! [`Interpreter::step`] or [`Interpreter::run`], does what the returned
//! [`Action`] asks, and answers a request for a computation with the next
//! call.

use crate::ast::{exprs_view, stmt_option_view, stmts_view, Expr, Stmt};
use crate::environment::{chained, defined, enclosed, EnvPtr, Environment};
use crate::error::{RuntimeError, RuntimeErrorView};
use crate::function::{Callable, EmojiFunction};
use crate::machine;
use crate::machine::{
    ActionView, EventView, FunctionView, MachineView, MarkView, OutputView, Status, Stepped,
    TaskView,
};
use crate::return_value::Return;
use crate::token::{Token, TokenType, Value, ValueView};
use vstd::prelude::*;
use vstd::string::StringExecFns;

verus! {

/// What the machine notes when it enters a block or a call. See
/// [`MarkView`].
#[derive(Clone, Copy, Debug, PartialEq, Eq)]
pub struct Mark {
    pub previous: EnvPtr,
    pub scopes: usize,
    pub functions: usize,
}

impl View for Mark {
    type V = MarkView;

    open spec fn view(&self) -> MarkView {
        MarkView {
            previous: self.previous as nat,
            scopes: self.scopes as nat,
            functions: self.functions as nat,
        }
    }
}

/// One thing the machine has yet to do. See [`TaskView`] for what each
/// task means.
#[derive(Debug)]
pub enum Task<'a> {
    Evaluate(&'a Expr),
    Execute(&'a Stmt),
    UnaryApply(&'a Token),
    BinaryRight(&'a Token, &'a Expr),
    BinaryApply(&'a Token, Value),
    LogicalRight(&'a Token, &'a Expr),
    AssignTo(&'a Token),
    CallStart(&'a Vec<Expr>),
    Argument(Value, &'a Vec<Expr>, Vec<Value>),
    Print,
    Define(&'a Token),
    Branch(&'a Stmt, &'a Option<Stmt>),
    Loop(&'a Expr, &'a Stmt),
    Sequence(&'a Vec<Stmt>, usize),
    LeaveScope(Mark),
    CallBoundary(Mark),
    Return,
}

/// The models of a list of values, in order.
pub open spec fn values_view(list: Seq<Value>) -> Seq<ValueView> {
    Seq::new(list.len(), |i: int| list[i]@)
}

impl<'a> View for Task<'a> {
    type V = TaskView;

    open spec fn view(&self) -> TaskView {
        match self {
            Task::Evaluate(e) => TaskView::Evaluate(e@),
            Task::Execute(s) => TaskView::Execute(s@),
            Task::UnaryApply(operator) => TaskView::UnaryApply(**operator),
            Task::BinaryRight(operator, right) => TaskView::BinaryRight(**operator, right@),
            Task::BinaryApply(operator, left) => TaskView::BinaryApply(**operator, left@),
            Task::LogicalRight(operator, right) => TaskView::LogicalRight(**operator, right@),
            Task::AssignTo(name) => TaskView::AssignTo(**name),
            Task::CallStart(args) => TaskView::CallStart(exprs_view(args@)),
            Task::Argument(callee, args, values) => TaskView::Argument(
                callee@,
                exprs_view(args@),
                values_view(values@),
            ),
            Task::Print => TaskView::Print,
            Task::Define(name) => TaskView::Define(**name),
            Task::Branch(then_branch, else_branch) => TaskView::Branch(
                then_branch@,
                stmt_option_view(**else_branch),
            ),
            Task::Loop(condition, body) => TaskView::Loop(condition@, body@),
            Task::Sequence(stmts, next) => TaskView::Sequence(stmts_view(stmts@), *next as nat),
            Task::LeaveScope(back) => TaskView::LeaveScope(back@),
            Task::CallBoundary(back) => TaskView::CallBoundary(back@),
            Task::Return => TaskView::Return,
        }
    }
}

/// What is printed: text as it is, or the bit pattern of a number for the
/// host to format.
#[derive(Debug, PartialEq)]
pub enum Output {
    Text(String),
    Number(u64),
}

impl View for Output {
    type V = OutputView;

    open spec fn view(&self) -> OutputView {
        match self {
            Output::Text(s) => OutputView::Text(s@),
            Output::Number(bits) => OutputView::Number(*bits),
        }
    }
}

/// What a step asks of the host. See [`ActionView`].
#[derive(Debug, PartialEq)]
pub enum Action {
    Continue,
    Print(Output),
    Compute(TokenType, u64, u64),
    Finished,
    Fatal(RuntimeError),
    Stopped,
}

impl View for Action {
    type V = ActionView;

    open spec fn view(&self) -> ActionView {
        match self {
            Action::Continue => ActionView::Continue,
            Action::Print(output) => ActionView::Print(output@),
            Action::Compute(kind, left, right) => ActionView::Compute(*kind, *left, *right),
            Action::Finished => ActionView::Finished,
            Action::Fatal(error) => ActionView::Fatal(error@),
            Action::Stopped => ActionView::Stopped,
        }
    }
}

/// What the host hands to a step: nothing, or the answer to the request of
/// the step before.
#[derive(Debug, PartialEq)]
pub enum Event {
    Tick,
    Answer(Value),
}

impl View for Event {
    type V = EventView;

    open spec fn view(&self) -> EventView {
        match self {
            Event::Tick => EventView::Tick,
            Event::Answer(value) => EventView::Answer(value@),
        }
    }
}

/// The models of a stack of tasks, bottom first.
pub open spec fn tasks_view<'a>(tasks: Seq<Task<'a>>) -> Seq<TaskView> {
    Seq::new(tasks.len(), |i: int| tasks[i]@)
}

/// The models of a table of closures.
pub open spec fn functions_view<'a>(functions: Seq<EmojiFunction<'a>>) -> Seq<FunctionView> {
    Seq::new(functions.len(), |i: int| functions[i]@)
}

/// Truthiness: nil and `false` are falsy, everything else is truthy.
pub fn is_truthy(value: &Value) -> (truth: bool)
    ensures
        truth == machine::truthy(value@),
{
    match value {
        Value::Nil => false,
        Value::Boolean(b) => *b,
        _ => true,
    }
}

/// Equality where it can be decided without looking into a number; `None`
/// for two numbers.
pub fn is_equal(a: &Value, b: &Value) -> (equal: Option<bool>)
    ensures
        equal == machine::equal_values(a@, b@),
{
    match (a, b) {
        (Value::Nil, Value::Nil) => Some(true),
        (Value::Boolean(x), Value::Boolean(y)) => Some(*x == *y),
        (Value::Text(x), Value::Text(y)) => Some(*x == *y),
        (Value::Number(_), Value::Number(_)) => None,
        _ => Some(false),
    }
}

/// The machine.
pub struct Interpreter<'a> {
    environments: Environment,
    environment: EnvPtr,
    functions: Vec<EmojiFunction<'a>>,
    tasks: Vec<Task<'a>>,
    value: Value,
    status: Status,
}

impl<'a> View for Interpreter<'a> {
    type V = MachineView;

    closed spec fn view(&self) -> MachineView {
        MachineView {
            scopes: self.environments@,
            current: self.environment as nat,
            functions: functions_view(self.functions@),
            tasks: tasks_view(self.tasks@),
            value: self.value@,
            status: self.status,
        }
    }
}

impl<'a> Interpreter<'a> {
    /// A machine with the global scope and nothing to do.
    pub fn new() -> (interpreter: Self)
        ensures
            interpreter@ == machine::initial(),
            machine::well_formed(interpreter@),
    {
        let interpreter = Interpreter {
            environments: Environment::new(),
            environment: 0,
            functions: Vec::new(),
            tasks: Vec::new(),
            value: Value::Nil,
            status: Status::Running,
        };
        assert(interpreter@.functions =~= Seq::<FunctionView>::empty());
        assert(interpreter@.tasks =~= Seq::<TaskView>::empty());
        interpreter
    }

    /// The value computed last.
    pub fn value(&self) -> (value: &Value)
        ensures
            value@ == self@.value,
    {
        &self.value
    }

    /// Whether the machine runs, waits or has stopped.
    pub fn status(&self) -> (status: Status)
        ensures
            status == self@.status,
    {
        self.status
    }

    /// The current scope.
    pub fn environment(&self) -> (env: EnvPtr)
        ensures
            env == self@.current,
    {
        self.environment
    }

    /// The scope arena.
    pub fn environments(&self) -> (environments: &Environment)
        ensures
            environments@ == self@.scopes,
    {
        &self.environments
    }

    /// The number of tasks on the stack.
    pub fn pending(&self) -> (n: usize)
        ensures
            n == self@.tasks.len(),
    {
        self.tasks.len()
    }

    fn push_task(&mut self, task: Task<'a>)
        ensures
            final(self)@ == old(self)@.push(task@),
    {
        self.tasks.push(task);
        assert(self@.tasks =~= old(self)@.tasks.push(task@));
    }

    fn outermost(&self) -> (env: EnvPtr)
        ensures
            env == machine::outermost(self@.tasks, self@.current),
    {
        let mut i: usize = 0;
        assert(self@.tasks.skip(0) =~= self@.tasks);
        while i < self.tasks.len()
            invariant
                i <= self.tasks@.len(),
                machine::lowest_mark(self@.tasks.skip(i as int)) == machine::lowest_mark(
                    self@.tasks,
                ),
            decreases self.tasks@.len() - i,
        {
            let ghost rest = self@.tasks.skip(i as int);
            assert(rest[0] == self.tasks@[i as int]@);
            assert(rest.drop_first() =~= self@.tasks.skip(i + 1));
            match &self.tasks[i] {
                Task::LeaveScope(back) => {
                    return back.previous;
                },
                Task::CallBoundary(back) => {
                    return back.previous;
                },
                _ => {},
            }
            i += 1;
        }
        self.environment
    }

    fn fail(&mut self, error: RuntimeError) -> (action: Action)
        ensures
            (Stepped { machine: final(self)@, action: action@ }) == old(self)@.fail(error@),
    {
        self.environment = self.outermost();
        self.tasks = Vec::new();
        self.status = Status::Failed;
        assert(self@.tasks =~= Seq::<TaskView>::empty());
        Action::Fatal(error)
    }

    /// The mark of the machine as it stands.
    pub fn mark(&self) -> (back: Mark)
        ensures
            back@ == machine::mark(self@),
    {
        Mark {
            previous: self.environment,
            scopes: self.environments.len(),
            functions: self.functions.len(),
        }
    }

    fn leave(&mut self, back: Mark)
        ensures
            final(self)@ == machine::leave(old(self)@, back@),
    {
        self.environment = back.previous;
        if self.functions.len() == back.functions && back.scopes <= self.environments.len() {
            self.environments.release(back.scopes);
        }
    }

    /// Schedules the evaluation of `expr`: it becomes the next thing the
    /// machine does, and its value will stand in the register.
    pub fn schedule_expression(&mut self, expr: &'a Expr)
        ensures
            final(self)@ == machine::load(old(self)@, TaskView::Evaluate(expr@)),
            machine::well_formed(old(self)@) ==> machine::well_formed(final(self)@),
    {
        proof {
            if machine::well_formed(self@) {
                machine::lemma_pushed_well_formed(self@, TaskView::Evaluate(expr@));
            }
        }
        self.push_task(Task::Evaluate(expr));
        self.wake();
    }

    /// Loads a program: its statements become the next things the machine
    /// does, in order. A machine that had finished runs again, with the
    /// scopes and closures it has.
    pub fn interpret(&mut self, stmts: &'a Vec<Stmt>)
        ensures
            final(self)@ == machine::load(
                old(self)@,
                TaskView::Sequence(stmts_view(stmts@), 0),
            ),
            machine::well_formed(old(self)@) ==> machine::well_formed(final(self)@),
    {
        proof {
            if machine::well_formed(self@) {
                machine::lemma_pushed_well_formed(
                    self@,
                    TaskView::Sequence(stmts_view(stmts@), 0),
                );
            }
        }
        self.push_task(Task::Sequence(stmts, 0));
        self.wake();
    }

    fn wake(&mut self)
        ensures
            final(self)@ == (MachineView {
                status: machine::woken(old(self)@.status),
                ..old(self)@
            }),
    {
        match self.status {
            Status::Finished => {
                self.status = Status::Running;
            },
            _ => {},
        }
    }

    fn execute_block_from(&mut self, stmts: &'a Vec<Stmt>, new_env: EnvPtr, back: Mark)
        ensures
            final(self)@ == machine::execute_block_from(
                old(self)@,
                stmts_view(stmts@),
                new_env as nat,
                back@,
            ),
    {
        self.push_task(Task::LeaveScope(back));
        self.push_task(Task::Sequence(stmts, 0));
        self.environment = new_env;
    }

    /// Schedules `stmts` in the scope `new_env`. On every way out of them
    /// the scope that is current now is current again: when they are done,
    /// and when a fatal error ends the run inside them. The scopes opened
    /// in between are given up when the statements are done, unless a
    /// closure was declared in between. A machine that had finished runs
    /// again.
    pub fn execute_block(&mut self, stmts: &'a Vec<Stmt>, new_env: EnvPtr)
        ensures
            final(self)@ == machine::execute_block(
                old(self)@,
                stmts_view(stmts@),
                new_env as nat,
            ),
            machine::well_formed(old(self)@) && new_env < old(self)@.scopes.len()
                ==> machine::well_formed(final(self)@),
    {
        proof {
            if machine::well_formed(self@) && new_env < self@.scopes.len() {
                let woken = machine::awake(self@);
                let noted = woken.push(TaskView::LeaveScope(machine::mark(self@)));
                let scheduled = noted.push(TaskView::Sequence(stmts_view(stmts@), 0));
                machine::lemma_marked_well_formed(
                    woken,
                    TaskView::LeaveScope(machine::mark(self@)),
                );
                machine::lemma_pushed_well_formed(
                    noted,
                    TaskView::Sequence(stmts_view(stmts@), 0),
                );
                machine::lemma_grown_well_formed(scheduled, scheduled.with_current(new_env as nat));
            }
        }
        let back = self.mark();
        self.wake();
        self.execute_block_from(stmts, new_env, back);
    }

    /// Opens a fresh scope inside `enclosing` and returns its handle.
    pub fn open_scope(&mut self, enclosing: EnvPtr) -> (fresh: EnvPtr)
        requires
            chained(old(self)@.scopes),
            enclosing < old(self)@.scopes.len(),
        ensures
            final(self)@ == old(self)@.with_scopes(enclosed(old(self)@.scopes, enclosing as nat)),
            fresh == old(self)@.scopes.len(),
            machine::well_formed(old(self)@) ==> machine::well_formed(final(self)@),
    {
        proof {
            if machine::well_formed(self@) {
                machine::lemma_grown_well_formed(
                    self@,
                    self@.with_scopes(enclosed(self@.scopes, enclosing as nat)),
                );
            }
        }
        self.environments.new_enclosed(enclosing)
    }

    /// Binds `name` to `value` in the scope `env` itself.
    pub fn define(&mut self, env: EnvPtr, name: String, value: Value)
        requires
            env < old(self)@.scopes.len(),
        ensures
            final(self)@ == old(self)@.with_scopes(
                defined(old(self)@.scopes, env as nat, name@, value@),
            ),
            machine::well_formed(old(self)@) ==> machine::well_formed(final(self)@),
    {
        proof {
            if machine::well_formed(self@) {
                machine::lemma_grown_well_formed(
                    self@,
                    self@.with_scopes(defined(self@.scopes, env as nat, name@, value@)),
                );
            }
        }
        self.environments.define(env, name, value);
    }

    /// Schedules the body of a call in the scope `env`, above the boundary
    /// that leads back to `back`. A machine that had finished runs again.
    pub(crate) fn enter(&mut self, body: &'a Vec<Stmt>, env: EnvPtr, back: Mark)
        ensures
            final(self)@ == machine::awake(old(self)@).push(TaskView::CallBoundary(back@)).push(
                TaskView::Sequence(stmts_view(body@), 0),
            ).with_current(env as nat),
    {
        self.wake();
        self.push_task(Task::CallBoundary(back));
        self.push_task(Task::Sequence(body, 0));
        self.environment = env;
    }
}

fn number_of(value: &Value) -> (bits: u64)
    requires
        value is Number,
    ensures
        value@ == ValueView::Number(bits),
{
    match value {
        Value::Number(bits) => *bits,
        _ => 0,
    }
}

impl<'a> Interpreter<'a> {
    /// How `value` is printed.
    pub fn display(&self, value: &Value) -> (output: Output)
        ensures
            output@ == machine::display(value@, self@.functions),
    {
        match value {
            Value::Text(s) => Output::Text(s.clone()),
            Value::Number(bits) => Output::Number(*bits),
            Value::Boolean(b) => if *b {
                Output::Text(String::from_str("true"))
            } else {
                Output::Text(String::from_str("false"))
            },
            Value::Nil => Output::Text(String::from_str("nil")),
            Value::Function(id) => if *id < self.functions.len() {
                Output::Text(self.functions[*id].to_text())
            } else {
                Output::Text(String::from_str("<fn>"))
            },
        }
    }

    fn request(&mut self, kind: TokenType, left: u64, right: u64) -> (action: Action)
        ensures
            (Stepped { machine: final(self)@, action: action@ }) == machine::request(
                old(self)@,
                kind,
                left,
                right,
            ),
    {
        self.status = Status::Awaiting(kind, left, right);
        Action::Compute(kind, left, right)
    }

    fn accept(&mut self, kind: TokenType, answer: Value) -> (action: Action)
        ensures
            (Stepped { machine: final(self)@, action: action@ }) == machine::accept(
                old(self)@,
                kind,
                answer@,
            ),
    {
        let arithmetic = kind == TokenType::Minus || kind == TokenType::Star || kind
            == TokenType::Slash || kind == TokenType::Plus;
        let fits = match &answer {
            Value::Number(_) => arithmetic,
            Value::Boolean(_) => !arithmetic,
            _ => false,
        };
        if fits {
            self.value = answer;
            self.status = Status::Running;
            Action::Continue
        } else {
            self.fail(RuntimeError::UnexpectedAnswer)
        }
    }

    fn visit_literal_expr(&mut self, value: &Value) -> (action: Action)
        ensures
            (Stepped { machine: final(self)@, action: action@ }) == old(self)@.with_value(
                value@,
            ).proceed(),
    {
        self.value = value.clone();
        Action::Continue
    }

    fn visit_grouping_expr(&mut self, inner: &'a Expr) -> (action: Action)
        ensures
            (Stepped { machine: final(self)@, action: action@ }) == old(self)@.push(
                TaskView::Evaluate(inner@),
            ).proceed(),
    {
        self.push_task(Task::Evaluate(inner));
        Action::Continue
    }

    fn visit_variable_expr(&mut self, name: &Token) -> (action: Action)
        requires
            machine::well_formed(old(self)@),
        ensures
            (Stepped { machine: final(self)@, action: action@ }) == machine::visit_variable_expr(
                old(self)@,
                *name,
            ),
    {
        match self.environments.get(self.environment, name) {
            Ok(value) => {
                self.value = value;
                Action::Continue
            },
            Err(error) => self.fail(error),
        }
    }

    fn visit_unary_expr(&mut self, operator: &Token, operand: Value) -> (action: Action)
        ensures
            (Stepped { machine: final(self)@, action: action@ }) == machine::visit_unary_expr(
                old(self)@,
                *operator,
                operand@,
            ),
    {
        if operator.token_type == TokenType::Minus {
            match operand {
                Value::Number(bits) => {
                    self.value = Value::Number(bits ^ 0x8000_0000_0000_0000u64);
                    Action::Continue
                },
                other => self.fail(RuntimeError::NotANumber(other)),
            }
        } else if operator.token_type == TokenType::Bang {
            self.value = Value::Boolean(!is_truthy(&operand));
            Action::Continue
        } else {
            self.value = Value::Nil;
            Action::Continue
        }
    }

    fn visit_binary_expr(&mut self, operator: &Token, left: Value, right: Value) -> (action: Action)
        ensures
            (Stepped { machine: final(self)@, action: action@ }) == machine::visit_binary_expr(
                old(self)@,
                *operator,
                left@,
                right@,
            ),
    {
        let kind = operator.token_type;
        if kind == TokenType::TextConcat {
            match (left, right) {
                (Value::Text(l), Value::Text(r)) => {
                    self.value = Value::Text(l.concat(r.as_str()));
                    Action::Continue
                },
                (l, r) => self.fail(RuntimeError::ConcatenationMismatch(l, r)),
            }
        } else if kind == TokenType::EqualEqual || kind == TokenType::BangEqual {
            match is_equal(&left, &right) {
                Some(equal) => {
                    self.value = Value::Boolean(
                        if kind == TokenType::EqualEqual {
                            equal
                        } else {
                            !equal
                        },
                    );
                    Action::Continue
                },
                None => {
                    let l = number_of(&left);
                    let r = number_of(&right);
                    self.request(kind, l, r)
                },
            }
        } else if kind == TokenType::Minus || kind == TokenType::Star || kind == TokenType::Slash
            || kind == TokenType::Plus || kind == TokenType::Greater || kind
            == TokenType::GreaterEqual || kind == TokenType::Less || kind == TokenType::LessEqual {
            match (left, right) {
                (Value::Number(l), Value::Number(r)) => self.request(kind, l, r),
                (l, r) => self.fail(RuntimeError::OperandsMustBeNumbers(l, r)),
            }
        } else {
            self.value = Value::Nil;
            Action::Continue
        }
    }

    fn visit_logical_expr(&mut self, operator: &Token, left: Value, right: &'a Expr) -> (action:
        Action)
        ensures
            (Stepped { machine: final(self)@, action: action@ }) == machine::visit_logical_expr(
                old(self)@,
                *operator,
                left@,
                right@,
            ),
    {
        let left_is_truthy = is_truthy(&left);
        let is_or = operator.token_type == TokenType::Or;
        if (is_or && left_is_truthy) || (!is_or && !left_is_truthy) {
            self.value = left;
        } else {
            self.push_task(Task::Evaluate(right));
        }
        Action::Continue
    }

    fn visit_assignment_expr(&mut self, name: &Token, value: Value) -> (action: Action)
        requires
            machine::well_formed(old(self)@),
        ensures
            (Stepped { machine: final(self)@, action: action@ })
                == machine::visit_assignment_expr(old(self)@, *name, value@),
    {
        match self.environments.assign(self.environment, name.clone(), value.clone()) {
            Ok(()) => {
                self.value = value;
                Action::Continue
            },
            Err(error) => self.fail(error),
        }
    }

    fn visit_call_expr(&mut self, callee: Value, args: Vec<Value>) -> (action: Action)
        requires
            machine::well_formed(old(self)@),
        ensures
            (Stepped { machine: final(self)@, action: action@ }) == machine::visit_call_expr(
                old(self)@,
                callee@,
                values_view(args@),
            ),
    {
        match callee {
            Value::Function(id) => {
                if id < self.functions.len() {
                    let function = self.functions[id];
                    if args.len() != function.arity() {
                        self.fail(
                            RuntimeError::WrongArgumentCount {
                                expected: function.arity(),
                                got: args.len(),
                            },
                        )
                    } else {
                        function.call(self, args);
                        Action::Continue
                    }
                } else {
                    self.fail(RuntimeError::NotCallable)
                }
            },
            _ => self.fail(RuntimeError::NotCallable),
        }
    }

    fn call_start(&mut self, callee: Value, args: &'a Vec<Expr>) -> (action: Action)
        requires
            machine::well_formed(old(self)@),
        ensures
            (Stepped { machine: final(self)@, action: action@ }) == machine::call_start(
                old(self)@,
                callee@,
                exprs_view(args@),
            ),
    {
        if args.len() == 0 {
            let none: Vec<Value> = Vec::new();
            assert(values_view(none@) =~= Seq::<ValueView>::empty());
            self.visit_call_expr(callee, none)
        } else {
            let none: Vec<Value> = Vec::new();
            assert(values_view(none@) =~= Seq::<ValueView>::empty());
            self.push_task(Task::Argument(callee, args, none));
            self.push_task(Task::Evaluate(&args[0]));
            Action::Continue
        }
    }

    fn argument(
        &mut self,
        callee: Value,
        args: &'a Vec<Expr>,
        values: Vec<Value>,
        value: Value,
    ) -> (action: Action)
        requires
            machine::well_formed(old(self)@),
        ensures
            (Stepped { machine: final(self)@, action: action@ }) == machine::argument(
                old(self)@,
                callee@,
                exprs_view(args@),
                values_view(values@),
                value@,
            ),
    {
        let mut known = values;
        known.push(value);
        assert(values_view(known@) =~= values_view(values@).push(value@));
        if known.len() < args.len() {
            let next = known.len();
            self.push_task(Task::Argument(callee, args, known));
            self.push_task(Task::Evaluate(&args[next]));
            Action::Continue
        } else {
            self.visit_call_expr(callee, known)
        }
    }

    fn visit_return_stmt(&mut self, signal: Return) -> (action: Action)
        ensures
            (Stepped { machine: final(self)@, action: action@ }) == machine::visit_return_stmt(
                old(self)@.with_value(signal.value@),
            ),
    {
        self.value = signal.value;
        let outside = self.outermost();
        let ghost before = self@;
        assert(before.tasks.take(self.tasks@.len() as int) =~= before.tasks);
        loop
            invariant
                before == old(self)@.with_value(signal.value@),
                outside == machine::outermost(before.tasks, before.current),
                self.tasks@.len() <= before.tasks.len(),
                self@ == (MachineView {
                    tasks: before.tasks.take(self.tasks@.len() as int),
                    ..before
                }),
                machine::boundary(self@.tasks) == machine::boundary(before.tasks),
            decreases self.tasks@.len(),
        {
            let ghost here = self@;
            match self.tasks.pop() {
                None => {
                    self.environment = outside;
                    return self.fail(RuntimeError::ReturnOutsideFunction);
                },
                Some(Task::CallBoundary(back)) => {
                    assert(self@.tasks =~= here.tasks.drop_last());
                    assert(here.tasks.last() == TaskView::CallBoundary(back@));
                    assert(self@.tasks =~= before.tasks.take(self.tasks@.len() as int));
                    self.leave(back);
                    return Action::Continue;
                },
                Some(_) => {
                    assert(self@.tasks =~= here.tasks.drop_last());
                    assert(self@.tasks =~= before.tasks.take(self.tasks@.len() as int));
                },
            }
        }
    }

    fn visit_var_stmt(&mut self, name: &Token, value: Value) -> (action: Action)
        requires
            machine::well_formed(old(self)@),
        ensures
            (Stepped { machine: final(self)@, action: action@ }) == machine::visit_var_stmt(
                old(self)@,
                *name,
                value@,
            ),
    {
        self.environments.define(self.environment, name.lexeme.clone(), value);
        Action::Continue
    }

    fn visit_block_stmt(&mut self, stmts: &'a Vec<Stmt>) -> (action: Action)
        requires
            machine::well_formed(old(self)@),
        ensures
            (Stepped { machine: final(self)@, action: action@ }) == machine::visit_block_stmt(
                old(self)@,
                stmts_view(stmts@),
            ),
    {
        let back = self.mark();
        let env = self.open_scope(self.environment);
        self.execute_block_from(stmts, env, back);
        Action::Continue
    }

    fn visit_if_stmt(
        &mut self,
        condition: Value,
        then_branch: &'a Stmt,
        else_branch: &'a Option<Stmt>,
    ) -> (action: Action)
        ensures
            (Stepped { machine: final(self)@, action: action@ }) == machine::visit_if_stmt(
                old(self)@,
                condition@,
                then_branch@,
                stmt_option_view(*else_branch),
            ),
    {
        if is_truthy(&condition) {
            self.push_task(Task::Execute(then_branch));
        } else if let Some(branch) = else_branch {
            self.push_task(Task::Execute(branch));
        }
        Action::Continue
    }

    fn visit_while_stmt(&mut self, tested: Value, condition: &'a Expr, body: &'a Stmt) -> (action:
        Action)
        ensures
            (Stepped { machine: final(self)@, action: action@ }) == machine::visit_while_stmt(
                old(self)@,
                tested@,
                condition@,
                body@,
            ),
    {
        if is_truthy(&tested) {
            self.push_task(Task::Loop(condition, body));
            self.push_task(Task::Evaluate(condition));
            self.push_task(Task::Execute(body));
        }
        Action::Continue
    }

    fn visit_func_stmt(&mut self, name: &'a Token, params: &'a Vec<Token>, body: &'a Vec<Stmt>)
        -> (action: Action)
        requires
            machine::well_formed(old(self)@),
        ensures
            (Stepped { machine: final(self)@, action: action@ }) == machine::visit_func_stmt(
                old(self)@,
                *name,
                params@,
                stmts_view(body@),
            ),
    {
        let id = self.functions.len();
        let function = EmojiFunction::new_from(name, params, body, self.environment);
        self.functions.push(function);
        assert(self@.functions =~= old(self)@.functions.push(function@));
        self.environments.define(self.environment, name.lexeme.clone(), Value::Function(id));
        Action::Continue
    }

    fn visit_print_stmt(&mut self, value: Value) -> (action: Action)
        ensures
            (Stepped { machine: final(self)@, action: action@ }) == machine::visit_print_stmt(
                old(self)@,
                value@,
            ),
    {
        Action::Print(self.display(&value))
    }

    fn visit_expression_stmt(&mut self, expr: &'a Expr) -> (action: Action)
        ensures
            (Stepped { machine: final(self)@, action: action@ }) == old(self)@.push(
                TaskView::Evaluate(expr@),
            ).proceed(),
    {
        self.push_task(Task::Evaluate(expr));
        Action::Continue
    }

    /// Starts the evaluation of `expr`: a literal or a variable is
    /// evaluated at once; anything else schedules its operands and what is
    /// to be done with them. A machine that had finished runs again.
    pub fn evaluate(&mut self, expr: &'a Expr) -> (action: Action)
        requires
            machine::well_formed(old(self)@),
        ensures
            (Stepped { machine: final(self)@, action: action@ }) == machine::evaluate(
                machine::awake(old(self)@),
                expr@,
            ),
    {
        proof {
            crate::ast::lemma_expr_view(*expr);
        }
        self.wake();
        match expr {
            Expr::Binary(left, operator, right) => {
                self.push_task(Task::BinaryRight(operator, &**right));
                self.push_task(Task::Evaluate(&**left));
                Action::Continue
            },
            Expr::Unary(operator, right) => {
                self.push_task(Task::UnaryApply(operator));
                self.push_task(Task::Evaluate(&**right));
                Action::Continue
            },
            Expr::Literal(value) => self.visit_literal_expr(value),
            Expr::Grouping(inner) => self.visit_grouping_expr(&**inner),
            Expr::Variable(name) => self.visit_variable_expr(name),
            Expr::Assign(name, value) => {
                self.push_task(Task::AssignTo(name));
                self.push_task(Task::Evaluate(&**value));
                Action::Continue
            },
            Expr::Logical(left, operator, right) => {
                self.push_task(Task::LogicalRight(operator, &**right));
                self.push_task(Task::Evaluate(&**left));
                Action::Continue
            },
            Expr::Call(callee, paren, args) => {
                self.push_task(Task::CallStart(args));
                self.push_task(Task::Evaluate(&**callee));
                Action::Continue
            },
        }
    }

    /// Starts the execution of `stmt`. A machine that had finished runs
    /// again.
    pub fn execute(&mut self, stmt: &'a Stmt) -> (action: Action)
        requires
            machine::well_formed(old(self)@),
        ensures
            (Stepped { machine: final(self)@, action: action@ }) == machine::execute(
                machine::awake(old(self)@),
                stmt@,
            ),
    {
        proof {
            crate::ast::lemma_stmt_view(*stmt);
        }
        self.wake();
        match stmt {
            Stmt::Expression(expr) => self.visit_expression_stmt(expr),
            Stmt::Print(expr) => {
                self.push_task(Task::Print);
                self.push_task(Task::Evaluate(expr));
                Action::Continue
            },
            Stmt::Var(name, initializer) => match initializer {
                Some(expr) => {
                    self.push_task(Task::Define(name));
                    self.push_task(Task::Evaluate(expr));
                    Action::Continue
                },
                None => self.visit_var_stmt(name, Value::Nil),
            },
            Stmt::Block(stmts) => self.visit_block_stmt(stmts),
            Stmt::If(condition, then_branch, else_branch) => {
                self.push_task(Task::Branch(&**then_branch, &**else_branch));
                self.push_task(Task::Evaluate(condition));
                Action::Continue
            },
            Stmt::While(condition, body) => {
                self.push_task(Task::Loop(condition, &**body));
                self.push_task(Task::Evaluate(condition));
                Action::Continue
            },
            Stmt::Func(name, params, body) => self.visit_func_stmt(name, params, body),
            Stmt::Return(_, value) => match value {
                Some(expr) => {
                    self.push_task(Task::Return);
                    self.push_task(Task::Evaluate(expr));
                    Action::Continue
                },
                None => self.visit_return_stmt(Return::new(Value::Nil)),
            },
        }
    }

    fn perform(&mut self, task: Task<'a>) -> (action: Action)
        requires
            machine::well_formed(old(self)@.push(task@)),
            old(self)@.status is Running,
        ensures
            (Stepped { machine: final(self)@, action: action@ }) == machine::perform(
                old(self)@,
                task@,
            ),
    {
        proof {
            machine::lemma_popped_well_formed(self@, task@);
        }
        match task {
            Task::Evaluate(expr) => self.evaluate(expr),
            Task::Execute(stmt) => self.execute(stmt),
            Task::UnaryApply(operator) => {
                let operand = self.value.clone();
                self.visit_unary_expr(operator, operand)
            },
            Task::BinaryRight(operator, right) => {
                let left = self.value.clone();
                self.push_task(Task::BinaryApply(operator, left));
                self.push_task(Task::Evaluate(right));
                Action::Continue
            },
            Task::BinaryApply(operator, left) => {
                let right = self.value.clone();
                self.visit_binary_expr(operator, left, right)
            },
            Task::LogicalRight(operator, right) => {
                let left = self.value.clone();
                self.visit_logical_expr(operator, left, right)
            },
            Task::AssignTo(name) => {
                let value = self.value.clone();
                self.visit_assignment_expr(name, value)
            },
            Task::CallStart(args) => {
                let callee = self.value.clone();
                self.call_start(callee, args)
            },
            Task::Argument(callee, args, values) => {
                let value = self.value.clone();
                self.argument(callee, args, values, value)
            },
            Task::Print => {
                let value = self.value.clone();
                self.visit_print_stmt(value)
            },
            Task::Define(name) => {
                let value = self.value.clone();
                self.visit_var_stmt(name, value)
            },
            Task::Branch(then_branch, else_branch) => {
                let condition = self.value.clone();
                self.visit_if_stmt(condition, then_branch, else_branch)
            },
            Task::Loop(condition, body) => {
                let tested = self.value.clone();
                self.visit_while_stmt(tested, condition, body)
            },
            Task::Sequence(stmts, next) => {
                if next < stmts.len() {
                    self.push_task(Task::Sequence(stmts, next + 1));
                    self.push_task(Task::Execute(&stmts[next]));
                }
                Action::Continue
            },
            Task::LeaveScope(back) => {
                self.leave(back);
                Action::Continue
            },
            Task::CallBoundary(back) => {
                self.leave(back);
                self.value = Value::Nil;
                Action::Continue
            },
            Task::Return => {
                let value = self.value.clone();
                self.visit_return_stmt(Return::new(value))
            },
        }
    }

    /// One step of the machine.
    pub fn step(&mut self, event: Event) -> (action: Action)
        requires
            machine::well_formed(old(self)@),
        ensures
            (Stepped { machine: final(self)@, action: action@ }) == machine::step(
                old(self)@,
                event@,
            ),
            machine::well_formed(final(self)@),
    {
        proof {
            machine::lemma_step_well_formed(self@, event@);
        }
        match self.status {
            Status::Awaiting(kind, left, right) => match event {
                Event::Answer(answer) => self.accept(kind, answer),
                Event::Tick => Action::Compute(kind, left, right),
            },
            Status::Finished => Action::Finished,
            Status::Failed => Action::Stopped,
            Status::Running => {
                let ghost before = self@;
                match self.tasks.pop() {
                    None => {
                        self.status = Status::Finished;
                        Action::Finished
                    },
                    Some(task) => {
                        assert(self@.tasks =~= before.tasks.drop_last());
                        assert(before.tasks.last() == task@);
                        assert(self@.push(task@).tasks =~= before.tasks);
                        self.perform(task)
                    },
                }
            },
        }
    }

    /// Up to `budget` steps, stopping early at the first that asks
    /// something of the host. `event` goes to the first step.
    pub fn run(&mut self, event: Event, budget: usize) -> (action: Action)
        requires
            machine::well_formed(old(self)@),
        ensures
            (Stepped { machine: final(self)@, action: action@ }) == machine::run(
                old(self)@,
                event@,
                budget as nat,
            ),
            machine::well_formed(final(self)@),
    {
        let mut left = budget;
        let mut next = event;
        while left > 0
            invariant
                machine::well_formed(self@),
                machine::run(self@, next@, left as nat) == machine::run(
                    old(self)@,
                    event@,
                    budget as nat,
                ),
            decreases left,
        {
            let action = self.step(next);
            match action {
                Action::Continue => {},
                other => {
                    return other;
                },
            }
            next = Event::Tick;
            left -= 1;
        }
        Action::Continue
    }
}

} // verus!

