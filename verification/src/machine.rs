//! The evaluator, as mathematics: a machine that takes one step at a time.
//!
//! The machine holds the scope arena, the closures declared so far, a
//! register with the value computed last, and a stack of tasks, the next one
//! on top. A step takes the top task and does what it says. What the
//! machine cannot do itself it asks of its host: to print a line, and to
//! compute with the numbers, which the machine holds as bit patterns without
//! looking inside. The host answers a request with the next step.
//!
//! A `return` unwinds the stack to the boundary of the innermost call. A
//! fatal error empties it, and leaves every block and call on the way:
//! the scope that was current before the outermost of them is current
//! again.
//!
//! A block or a call runs in a scope of its own. On the way in the machine
//! marks where it stands; on the way out it goes back to the mark, and
//! gives up the scopes opened since unless a closure was declared since,
//! which may have captured one of them.

use crate::ast::{ExprView, StmtView};
use crate::environment::{assigned, chained, defined, enclosed, global, lookup, resolve, ScopeView};
use crate::error::RuntimeErrorView;
use crate::token::{Token, TokenType, ValueView};
use vstd::prelude::*;

verus! {

/// The model of a closure: a declared function and the scope it was
/// declared in.
pub struct FunctionView {
    pub name: Token,
    pub params: Seq<Token>,
    pub body: Seq<StmtView>,
    pub closure: nat,
}

/// Whether the machine runs, waits for the host's answer to the operation
/// `(operator, left, right)`, or has stopped.
#[derive(Clone, Copy, Debug, PartialEq, Eq, Structural)]
pub enum Status {
    Running,
    Awaiting(TokenType, u64, u64),
    Finished,
    Failed,
}

/// What the machine notes when it enters a block or a call: the scope to
/// come back to, and how many scopes and closures there were. Where no
/// closure has been declared in the meantime, nothing can refer to the
/// scopes opened since, and they are given up on the way out.
pub struct MarkView {
    pub previous: nat,
    pub scopes: nat,
    pub functions: nat,
}

/// The model of a task.
pub enum TaskView {
    /// Evaluate the expression into the register.
    Evaluate(ExprView),
    /// Execute the statement.
    Execute(StmtView),
    /// Apply the prefix operator to the register.
    UnaryApply(Token),
    /// The left operand is in the register; evaluate the right one next.
    BinaryRight(Token, ExprView),
    /// The right operand is in the register; apply the operator.
    BinaryApply(Token, ValueView),
    /// The left operand is in the register; decide whether the right one
    /// is needed.
    LogicalRight(Token, ExprView),
    /// Assign the register to the name.
    AssignTo(Token),
    /// The callee is in the register; evaluate the arguments next.
    CallStart(Seq<ExprView>),
    /// The next argument is in the register; the callee and the earlier
    /// arguments are kept here.
    Argument(ValueView, Seq<ExprView>, Seq<ValueView>),
    /// Print the register.
    Print,
    /// Bind the name to the register in the current scope.
    Define(Token),
    /// The condition is in the register; choose a branch.
    Branch(StmtView, Option<StmtView>),
    /// The condition is in the register; run the body and test again, or
    /// leave the loop.
    Loop(ExprView, StmtView),
    /// Execute the statements from the given index on.
    Sequence(Seq<StmtView>, nat),
    /// Leave a block: make the scope of the mark current again.
    LeaveScope(MarkView),
    /// The boundary of a call: make the caller's scope current again; the
    /// call's value is nil unless a `return` set it.
    CallBoundary(MarkView),
    /// The value to return is in the register; unwind to the boundary.
    Return,
}

/// The model of what is printed: text as it is, or a number for the host
/// to format.
pub enum OutputView {
    Text(Seq<char>),
    Number(u64),
}

/// The model of what a step asks of the host.
pub enum ActionView {
    /// Nothing; step again.
    Continue,
    /// Write one line.
    Print(OutputView),
    /// Apply the operator to the two numbers and answer with the result.
    Compute(TokenType, u64, u64),
    /// The program has run to its end.
    Finished,
    /// The program has failed; the run is over.
    Fatal(RuntimeErrorView),
    /// The machine had failed before; nothing happened.
    Stopped,
}

/// The model of what the host hands to a step: nothing, or the answer to
/// the request of the step before.
pub enum EventView {
    Tick,
    Answer(ValueView),
}

/// The model of the machine.
pub struct MachineView {
    pub scopes: Seq<ScopeView>,
    pub current: nat,
    pub functions: Seq<FunctionView>,
    pub tasks: Seq<TaskView>,
    pub value: ValueView,
    pub status: Status,
}

/// A machine after a step, and what the step asks of the host.
pub struct Stepped {
    pub machine: MachineView,
    pub action: ActionView,
}

impl MachineView {
    /// The machine with `task` on top of its stack.
    pub open spec fn push(self, task: TaskView) -> MachineView {
        MachineView { tasks: self.tasks.push(task), ..self }
    }

    /// The machine with `value` in its register.
    pub open spec fn with_value(self, value: ValueView) -> MachineView {
        MachineView { value, ..self }
    }

    /// The machine with `scopes` for its arena.
    pub open spec fn with_scopes(self, scopes: Seq<ScopeView>) -> MachineView {
        MachineView { scopes, ..self }
    }

    /// The machine with `current` for its current scope.
    pub open spec fn with_current(self, current: nat) -> MachineView {
        MachineView { current, ..self }
    }

    /// This machine, with nothing asked of the host.
    pub open spec fn proceed(self) -> Stepped {
        Stepped { machine: self, action: ActionView::Continue }
    }

    /// This machine stopped by `error`: every block and call it was in is
    /// left, so that the scope is current again that was current before
    /// the outermost of them, and nothing is left to do.
    pub open spec fn fail(self, error: RuntimeErrorView) -> Stepped {
        Stepped { machine: stopped(self), action: ActionView::Fatal(error) }
    }
}

/// The lowest mark on the stack: that of the outermost block or call the
/// machine is in.
pub open spec fn lowest_mark(tasks: Seq<TaskView>) -> Option<MarkView>
    decreases tasks.len(),
{
    if tasks.len() == 0 {
        None
    } else {
        match mark_of(tasks[0]) {
            Some(back) => Some(back),
            None => lowest_mark(tasks.drop_first()),
        }
    }
}

/// The scope that was current before the outermost block or call on the
/// stack was entered; `current` where the machine is in none.
pub open spec fn outermost(tasks: Seq<TaskView>, current: nat) -> nat {
    match lowest_mark(tasks) {
        Some(back) => back.previous,
        None => current,
    }
}

/// The machine after a fatal error: out of every block and call, with
/// nothing left to do.
pub open spec fn stopped(m: MachineView) -> MachineView {
    MachineView {
        tasks: Seq::empty(),
        status: Status::Failed,
        current: outermost(m.tasks, m.current),
        ..m
    }
}

/// The machine as it is when given something to do: running again if it
/// had finished.
pub open spec fn awake(m: MachineView) -> MachineView {
    MachineView { status: woken(m.status), ..m }
}

/// The status of a machine that is given something to do: a machine that
/// had finished runs again; one that runs, waits or has failed stays as it
/// is.
pub open spec fn woken(status: Status) -> Status {
    if status == Status::Finished {
        Status::Running
    } else {
        status
    }
}

/// The machine with `task` as the next thing to do, running again if it
/// had finished.
pub open spec fn load(m: MachineView, task: TaskView) -> MachineView {
    MachineView { tasks: m.tasks.push(task), status: woken(m.status), ..m }
}

/// The machine before anything is loaded: the global scope, no closures,
/// no tasks, nil in the register.
pub open spec fn initial() -> MachineView {
    MachineView {
        scopes: global(),
        current: 0,
        functions: Seq::empty(),
        tasks: Seq::empty(),
        value: ValueView::Nil,
        status: Status::Running,
    }
}

/// The mark of a task that leads out of a block or a call.
pub open spec fn mark_of(task: TaskView) -> Option<MarkView> {
    match task {
        TaskView::LeaveScope(mark) => Some(mark),
        TaskView::CallBoundary(mark) => Some(mark),
        _ => None,
    }
}

/// Whether a mark can be gone back to: its scope is one of the scopes it
/// counted, those are still there, and so are the closures it counted,
/// each over one of the scopes it counted.
pub open spec fn mark_valid(mark: MarkView, scopes: nat, functions: Seq<FunctionView>) -> bool {
    &&& mark.previous < mark.scopes
    &&& mark.scopes <= scopes
    &&& mark.functions <= functions.len()
    &&& forall|k: int|
        0 <= k < mark.functions ==> (#[trigger] functions[k]).closure < mark.scopes
}

/// Whether every mark on the stack can be gone back to.
pub open spec fn marks_valid(tasks: Seq<TaskView>, scopes: nat, functions: Seq<FunctionView>)
    -> bool {
    forall|i: int|
        0 <= i < tasks.len() && mark_of(#[trigger] tasks[i]) is Some ==> mark_valid(
            mark_of(tasks[i])->Some_0,
            scopes,
            functions,
        )
}

/// Whether a mark higher on the stack counted at least as many scopes as
/// any mark below it.
pub open spec fn marks_ordered(tasks: Seq<TaskView>) -> bool {
    forall|i: int, j: int|
        0 <= i < j < tasks.len() && mark_of(#[trigger] tasks[i]) is Some && mark_of(
            #[trigger] tasks[j],
        ) is Some ==> mark_of(tasks[i])->Some_0.scopes <= mark_of(tasks[j])->Some_0.scopes
}

/// The machine's invariant: the arena is chained, the current scope and
/// the scope of every closure exist, and the marks on the stack can be
/// gone back to, in their order.
pub open spec fn well_formed(m: MachineView) -> bool {
    &&& chained(m.scopes)
    &&& m.current < m.scopes.len()
    &&& forall|i: int| 0 <= i < m.functions.len() ==> (#[trigger] m.functions[i]).closure
        < m.scopes.len()
    &&& marks_valid(m.tasks, m.scopes.len(), m.functions)
    &&& marks_ordered(m.tasks)
}

/// The mark of the machine as it stands.
pub open spec fn mark(m: MachineView) -> MarkView {
    MarkView { previous: m.current, scopes: m.scopes.len(), functions: m.functions.len() }
}

/// The machine back at `mark`: the marked scope is current, and the
/// scopes opened since are given up unless a closure was declared since.
pub open spec fn leave(m: MachineView, mark: MarkView) -> MachineView {
    MachineView {
        current: mark.previous,
        scopes: if m.functions.len() == mark.functions && mark.scopes <= m.scopes.len() {
            m.scopes.take(mark.scopes as int)
        } else {
            m.scopes
        },
        ..m
    }
}

/// Truthiness: nil and `false` are falsy, everything else is truthy.
pub open spec fn truthy(value: ValueView) -> bool {
    !(value is Nil) && value != ValueView::Boolean(false)
}

/// Equality of two values where the machine can decide it: nil equals nil,
/// booleans and texts are compared by content, values of different kinds
/// are unequal, and a function equals nothing. Two numbers are compared by
/// the host: `None`.
pub open spec fn equal_values(left: ValueView, right: ValueView) -> Option<bool> {
    match (left, right) {
        (ValueView::Nil, ValueView::Nil) => Some(true),
        (ValueView::Boolean(a), ValueView::Boolean(b)) => Some(a == b),
        (ValueView::Text(a), ValueView::Text(b)) => Some(a == b),
        (ValueView::Number(_), ValueView::Number(_)) => None,
        _ => Some(false),
    }
}

/// The bit pattern of the negated number: the sign bit flipped.
pub open spec fn negated(bits: u64) -> u64 {
    bits ^ 0x8000_0000_0000_0000u64
}

/// Whether the operator yields a number.
pub open spec fn is_arithmetic(kind: TokenType) -> bool {
    kind == TokenType::Minus || kind == TokenType::Star || kind == TokenType::Slash || kind
        == TokenType::Plus
}

/// Whether the operator compares two numbers by order.
pub open spec fn is_comparison(kind: TokenType) -> bool {
    kind == TokenType::Greater || kind == TokenType::GreaterEqual || kind == TokenType::Less
        || kind == TokenType::LessEqual
}

/// How a value is printed: text as it is, a number by the host, a boolean
/// as `true` or `false`, nil as `nil`, a function as `<fn NAME>`.
pub open spec fn display(value: ValueView, functions: Seq<FunctionView>) -> OutputView {
    match value {
        ValueView::Text(s) => OutputView::Text(s),
        ValueView::Number(bits) => OutputView::Number(bits),
        ValueView::Boolean(b) => OutputView::Text(
            if b {
                "true"@
            } else {
                "false"@
            },
        ),
        ValueView::Nil => OutputView::Text("nil"@),
        ValueView::Function(id) => OutputView::Text(
            if id < functions.len() {
                "<fn "@ + functions[id as int].name.lexeme@ + ">"@
            } else {
                "<fn>"@
            },
        ),
    }
}

/// Starts the evaluation of `e`.
pub open spec fn evaluate(m: MachineView, e: ExprView) -> Stepped {
    match e {
        ExprView::Literal(value) => m.with_value(value).proceed(),
        ExprView::Variable(name) => visit_variable_expr(m, name),
        ExprView::Grouping(inner) => m.push(TaskView::Evaluate(*inner)).proceed(),
        ExprView::Unary(operator, right) => m.push(TaskView::UnaryApply(operator)).push(
            TaskView::Evaluate(*right),
        ).proceed(),
        ExprView::Binary(left, operator, right) => m.push(
            TaskView::BinaryRight(operator, *right),
        ).push(TaskView::Evaluate(*left)).proceed(),
        ExprView::Logical(left, operator, right) => m.push(
            TaskView::LogicalRight(operator, *right),
        ).push(TaskView::Evaluate(*left)).proceed(),
        ExprView::Assign(name, value) => m.push(TaskView::AssignTo(name)).push(
            TaskView::Evaluate(*value),
        ).proceed(),
        ExprView::Call(callee, _, args) => m.push(TaskView::CallStart(args)).push(
            TaskView::Evaluate(*callee),
        ).proceed(),
    }
}

/// Reads a variable: a fatal error where no scope in the chain binds it.
pub open spec fn visit_variable_expr(m: MachineView, name: Token) -> Stepped {
    match lookup(m.scopes, m.current, name.lexeme@) {
        Some(value) => m.with_value(value).proceed(),
        None => m.fail(RuntimeErrorView::UndefinedVariable(name.lexeme@)),
    }
}

/// Applies a prefix operator to `operand`. Minus wants a number. Not
/// yields `true` for a falsy operand and `false` for a truthy one.
pub open spec fn visit_unary_expr(m: MachineView, operator: Token, operand: ValueView) -> Stepped {
    if operator.token_type == TokenType::Minus {
        match operand {
            ValueView::Number(bits) => m.with_value(ValueView::Number(negated(bits))).proceed(),
            _ => m.fail(RuntimeErrorView::NotANumber(operand)),
        }
    } else if operator.token_type == TokenType::Bang {
        m.with_value(ValueView::Boolean(!truthy(operand))).proceed()
    } else {
        m.with_value(ValueView::Nil).proceed()
    }
}

/// Applies a binary operator to two values. Concatenation wants two
/// texts. Equality is decided here unless both are numbers. Arithmetic and
/// ordering want two numbers and are asked of the host.
pub open spec fn visit_binary_expr(
    m: MachineView,
    operator: Token,
    left: ValueView,
    right: ValueView,
) -> Stepped {
    let kind = operator.token_type;
    if kind == TokenType::TextConcat {
        match (left, right) {
            (ValueView::Text(l), ValueView::Text(r)) => m.with_value(
                ValueView::Text(l + r),
            ).proceed(),
            _ => m.fail(RuntimeErrorView::ConcatenationMismatch(left, right)),
        }
    } else if kind == TokenType::EqualEqual || kind == TokenType::BangEqual {
        match equal_values(left, right) {
            Some(equal) => m.with_value(
                ValueView::Boolean(
                    if kind == TokenType::EqualEqual {
                        equal
                    } else {
                        !equal
                    },
                ),
            ).proceed(),
            None => request(m, kind, left->Number_0, right->Number_0),
        }
    } else if is_arithmetic(kind) || is_comparison(kind) {
        match (left, right) {
            (ValueView::Number(l), ValueView::Number(r)) => request(m, kind, l, r),
            _ => m.fail(RuntimeErrorView::OperandsMustBeNumbers(left, right)),
        }
    } else {
        m.with_value(ValueView::Nil).proceed()
    }
}

/// Asks the host to apply `kind` to two numbers, and waits.
pub open spec fn request(m: MachineView, kind: TokenType, left: u64, right: u64) -> Stepped {
    Stepped {
        machine: MachineView { status: Status::Awaiting(kind, left, right), ..m },
        action: ActionView::Compute(kind, left, right),
    }
}

/// Takes the host's answer to a request for `kind`: a number for an
/// arithmetic operator, a boolean for any other. An answer of the wrong
/// kind is a fatal error.
pub open spec fn accept(m: MachineView, kind: TokenType, answer: ValueView) -> Stepped {
    if (is_arithmetic(kind) && answer is Number) || (!is_arithmetic(kind) && answer is Boolean) {
        MachineView { value: answer, status: Status::Running, ..m }.proceed()
    } else {
        m.fail(RuntimeErrorView::UnexpectedAnswer)
    }
}

/// Decides a short-circuit operator on its left operand: `or` keeps a
/// truthy left operand, `and` a falsy one, and the right operand is then
/// never evaluated; otherwise the right operand is evaluated next.
pub open spec fn visit_logical_expr(
    m: MachineView,
    operator: Token,
    left: ValueView,
    right: ExprView,
) -> Stepped {
    let is_or = operator.token_type == TokenType::Or;
    if (is_or && truthy(left)) || (!is_or && !truthy(left)) {
        m.with_value(left).proceed()
    } else {
        m.push(TaskView::Evaluate(right)).proceed()
    }
}

/// Assigns `value` to `name`, and leaves it in the register: a fatal error
/// where no scope in the chain binds the name.
pub open spec fn visit_assignment_expr(m: MachineView, name: Token, value: ValueView) -> Stepped {
    match resolve(m.scopes, m.current, name.lexeme@) {
        Some(_) => m.with_scopes(assigned(m.scopes, m.current, name.lexeme@, value)).with_value(
            value,
        ).proceed(),
        None => m.fail(RuntimeErrorView::UndefinedVariable(name.lexeme@)),
    }
}

/// The arena after the first `count` parameters are bound to the first
/// `count` arguments in the scope `env`, in order.
pub open spec fn bound(
    scopes: Seq<ScopeView>,
    env: nat,
    params: Seq<Token>,
    args: Seq<ValueView>,
    count: nat,
) -> Seq<ScopeView>
    decreases count,
{
    if count == 0 {
        scopes
    } else {
        defined(
            bound(scopes, env, params, args, (count - 1) as nat),
            env,
            params[count - 1].lexeme@,
            args[count - 1],
        )
    }
}

/// The smaller of two numbers.
pub open spec fn least(a: nat, b: nat) -> nat {
    if a < b {
        a
    } else {
        b
    }
}

/// Enters `function` with `args`: a fresh scope inside the closure's scope
/// binds the parameters to the arguments by position, and becomes current;
/// the body is scheduled above the boundary that leads back to the caller.
/// A machine that had finished runs again.
pub open spec fn call(m: MachineView, function: FunctionView, args: Seq<ValueView>) -> MachineView {
    let fresh = m.scopes.len();
    MachineView {
        scopes: bound(
            enclosed(m.scopes, function.closure),
            fresh,
            function.params,
            args,
            least(function.params.len(), args.len()),
        ),
        current: fresh,
        tasks: m.tasks.push(TaskView::CallBoundary(mark(m))).push(
            TaskView::Sequence(function.body, 0),
        ),
        status: woken(m.status),
        ..m
    }
}

/// Calls `callee` with `args`. Only a function can be called, and only
/// with as many arguments as it has parameters: anything else is a fatal
/// error, and the body is not entered.
pub open spec fn visit_call_expr(m: MachineView, callee: ValueView, args: Seq<ValueView>)
    -> Stepped {
    match callee {
        ValueView::Function(id) => if id < m.functions.len() {
            if args.len() != m.functions[id as int].params.len() {
                m.fail(
                    RuntimeErrorView::WrongArgumentCount {
                        expected: m.functions[id as int].params.len(),
                        got: args.len(),
                    },
                )
            } else {
                call(m, m.functions[id as int], args).proceed()
            }
        } else {
            m.fail(RuntimeErrorView::NotCallable)
        },
        _ => m.fail(RuntimeErrorView::NotCallable),
    }
}

/// The callee is known: evaluates the first argument, or calls at once
/// where there is none.
pub open spec fn call_start(m: MachineView, callee: ValueView, args: Seq<ExprView>) -> Stepped {
    if args.len() == 0 {
        visit_call_expr(m, callee, Seq::empty())
    } else {
        m.push(TaskView::Argument(callee, args, Seq::empty())).push(
            TaskView::Evaluate(args[0]),
        ).proceed()
    }
}

/// One more argument is known: evaluates the next, or calls where it was
/// the last. Arguments are evaluated from left to right.
pub open spec fn argument(
    m: MachineView,
    callee: ValueView,
    args: Seq<ExprView>,
    values: Seq<ValueView>,
    value: ValueView,
) -> Stepped {
    let known = values.push(value);
    if known.len() < args.len() {
        m.push(TaskView::Argument(callee, args, known)).push(
            TaskView::Evaluate(args[known.len() as int]),
        ).proceed()
    } else {
        visit_call_expr(m, callee, known)
    }
}

/// The index of the topmost call boundary on the stack.
pub open spec fn boundary(tasks: Seq<TaskView>) -> Option<nat>
    decreases tasks.len(),
{
    if tasks.len() == 0 {
        None
    } else if tasks.last() is CallBoundary {
        Some((tasks.len() - 1) as nat)
    } else {
        boundary(tasks.drop_last())
    }
}

/// Returns from the innermost call: every task down to and including its
/// boundary is dropped, the machine is back at the boundary's mark, and
/// the register keeps the value returned. Outside any call this is a
/// fatal error.
pub open spec fn visit_return_stmt(m: MachineView) -> Stepped {
    match boundary(m.tasks) {
        Some(i) => leave(
            MachineView { tasks: m.tasks.take(i as int), ..m },
            m.tasks[i as int]->CallBoundary_0,
        ).proceed(),
        None => m.fail(RuntimeErrorView::ReturnOutsideFunction),
    }
}

/// Declares a variable in the current scope.
pub open spec fn visit_var_stmt(m: MachineView, name: Token, value: ValueView) -> Stepped {
    m.with_scopes(defined(m.scopes, m.current, name.lexeme@, value)).proceed()
}

/// Schedules `stmts` in the scope `env`, and below them the way back to
/// `back`.
pub open spec fn execute_block_from(
    m: MachineView,
    stmts: Seq<StmtView>,
    env: nat,
    back: MarkView,
) -> MachineView {
    m.push(TaskView::LeaveScope(back)).push(TaskView::Sequence(stmts, 0)).with_current(env)
}

/// Schedules `stmts` in the scope `env`, and below them the way back to
/// the machine's mark as it stands. A machine that had finished runs
/// again.
pub open spec fn execute_block(m: MachineView, stmts: Seq<StmtView>, env: nat) -> MachineView {
    execute_block_from(awake(m), stmts, env, mark(m))
}

/// Enters a block: its statements run in a fresh scope inside the current
/// one, and the way back leads to where the machine stood before.
pub open spec fn visit_block_stmt(m: MachineView, stmts: Seq<StmtView>) -> Stepped {
    execute_block_from(
        m.with_scopes(enclosed(m.scopes, m.current)),
        stmts,
        m.scopes.len(),
        mark(m),
    ).proceed()
}

/// Chooses the branch of an `if` by the truthiness of `condition`.
pub open spec fn visit_if_stmt(
    m: MachineView,
    condition: ValueView,
    then_branch: StmtView,
    else_branch: Option<StmtView>,
) -> Stepped {
    if truthy(condition) {
        m.push(TaskView::Execute(then_branch)).proceed()
    } else {
        match else_branch {
            Some(branch) => m.push(TaskView::Execute(branch)).proceed(),
            None => m.proceed(),
        }
    }
}

/// Goes round a `while` once more where `tested` is truthy: the body, then
/// the condition again, then this decision again. Leaves the loop otherwise.
pub open spec fn visit_while_stmt(
    m: MachineView,
    tested: ValueView,
    condition: ExprView,
    body: StmtView,
) -> Stepped {
    if truthy(tested) {
        m.push(TaskView::Loop(condition, body)).push(TaskView::Evaluate(condition)).push(
            TaskView::Execute(body),
        ).proceed()
    } else {
        m.proceed()
    }
}

/// Declares a function: a new closure over the current scope, bound to
/// the function's name in the current scope.
pub open spec fn visit_func_stmt(
    m: MachineView,
    name: Token,
    params: Seq<Token>,
    body: Seq<StmtView>,
) -> Stepped {
    MachineView {
        functions: m.functions.push(FunctionView { name, params, body, closure: m.current }),
        scopes: defined(
            m.scopes,
            m.current,
            name.lexeme@,
            ValueView::Function(m.functions.len()),
        ),
        ..m
    }.proceed()
}

/// Prints `value`.
pub open spec fn visit_print_stmt(m: MachineView, value: ValueView) -> Stepped {
    Stepped { machine: m, action: ActionView::Print(display(value, m.functions)) }
}

/// Starts the execution of `s`.
pub open spec fn execute(m: MachineView, s: StmtView) -> Stepped {
    match s {
        StmtView::Expression(e) => m.push(TaskView::Evaluate(e)).proceed(),
        StmtView::Print(e) => m.push(TaskView::Print).push(TaskView::Evaluate(e)).proceed(),
        StmtView::Var(name, initializer) => match initializer {
            Some(e) => m.push(TaskView::Define(name)).push(TaskView::Evaluate(e)).proceed(),
            None => visit_var_stmt(m, name, ValueView::Nil),
        },
        StmtView::Block(stmts) => visit_block_stmt(m, stmts),
        StmtView::If(condition, then_branch, else_branch) => m.push(
            TaskView::Branch(
                *then_branch,
                match else_branch {
                    Some(branch) => Some(*branch),
                    None => None,
                },
            ),
        ).push(TaskView::Evaluate(condition)).proceed(),
        StmtView::While(condition, body) => m.push(TaskView::Loop(condition, *body)).push(
            TaskView::Evaluate(condition),
        ).proceed(),
        StmtView::Func(name, params, body) => visit_func_stmt(m, name, params, body),
        StmtView::Return(_, value) => match value {
            Some(e) => m.push(TaskView::Return).push(TaskView::Evaluate(e)).proceed(),
            None => visit_return_stmt(m.with_value(ValueView::Nil)),
        },
    }
}

/// Does what `task` says, on the machine that has already taken it off
/// its stack.
pub open spec fn perform(m: MachineView, task: TaskView) -> Stepped {
    match task {
        TaskView::Evaluate(e) => evaluate(m, e),
        TaskView::Execute(s) => execute(m, s),
        TaskView::UnaryApply(operator) => visit_unary_expr(m, operator, m.value),
        TaskView::BinaryRight(operator, right) => m.push(
            TaskView::BinaryApply(operator, m.value),
        ).push(TaskView::Evaluate(right)).proceed(),
        TaskView::BinaryApply(operator, left) => visit_binary_expr(m, operator, left, m.value),
        TaskView::LogicalRight(operator, right) => visit_logical_expr(
            m,
            operator,
            m.value,
            right,
        ),
        TaskView::AssignTo(name) => visit_assignment_expr(m, name, m.value),
        TaskView::CallStart(args) => call_start(m, m.value, args),
        TaskView::Argument(callee, args, values) => argument(m, callee, args, values, m.value),
        TaskView::Print => visit_print_stmt(m, m.value),
        TaskView::Define(name) => visit_var_stmt(m, name, m.value),
        TaskView::Branch(then_branch, else_branch) => visit_if_stmt(
            m,
            m.value,
            then_branch,
            else_branch,
        ),
        TaskView::Loop(condition, body) => visit_while_stmt(m, m.value, condition, body),
        TaskView::Sequence(stmts, next) => if next < stmts.len() {
            m.push(TaskView::Sequence(stmts, next + 1)).push(
                TaskView::Execute(stmts[next as int]),
            ).proceed()
        } else {
            m.proceed()
        },
        TaskView::LeaveScope(back) => leave(m, back).proceed(),
        TaskView::CallBoundary(back) => leave(m, back).with_value(ValueView::Nil).proceed(),
        TaskView::Return => visit_return_stmt(m),
    }
}

/// One step of the machine. A machine that waits takes the answer, and
/// repeats its request where none came. A machine that has stopped stays
/// as it is. A running machine with nothing left to do has finished; any
/// other takes the top task off its stack and performs it.
pub open spec fn step(m: MachineView, event: EventView) -> Stepped {
    match m.status {
        Status::Awaiting(kind, left, right) => match event {
            EventView::Answer(answer) => accept(m, kind, answer),
            EventView::Tick => Stepped {
                machine: m,
                action: ActionView::Compute(kind, left, right),
            },
        },
        Status::Finished => Stepped { machine: m, action: ActionView::Finished },
        Status::Failed => Stepped { machine: m, action: ActionView::Stopped },
        Status::Running => if m.tasks.len() == 0 {
            Stepped {
                machine: MachineView { status: Status::Finished, ..m },
                action: ActionView::Finished,
            }
        } else {
            perform(MachineView { tasks: m.tasks.drop_last(), ..m }, m.tasks.last())
        },
    }
}

/// Up to `budget` steps, stopping early at the first that asks something
/// of the host. The event goes to the first step.
pub open spec fn run(m: MachineView, event: EventView, budget: nat) -> Stepped
    decreases budget,
{
    if budget == 0 {
        m.proceed()
    } else {
        let first = step(m, event);
        if first.action is Continue {
            run(first.machine, EventView::Tick, (budget - 1) as nat)
        } else {
            first
        }
    }
}

/// Binding parameters changes neither the number of scopes nor the chain.
pub proof fn lemma_bound_shape(
    scopes: Seq<ScopeView>,
    env: nat,
    params: Seq<Token>,
    args: Seq<ValueView>,
    count: nat,
)
    requires
        env < scopes.len(),
        chained(scopes),
    ensures
        bound(scopes, env, params, args, count).len() == scopes.len(),
        chained(bound(scopes, env, params, args, count)),
    decreases count,
{
    if count > 0 {
        lemma_bound_shape(scopes, env, params, args, (count - 1) as nat);
    }
}

/// The topmost boundary, where there is one, is a boundary on the stack.
pub proof fn lemma_boundary(tasks: Seq<TaskView>)
    ensures
        boundary(tasks) matches Some(i) ==> i < tasks.len() && tasks[i as int] is CallBoundary,
    decreases tasks.len(),
{
    if tasks.len() > 0 && !(tasks.last() is CallBoundary) {
        lemma_boundary(tasks.drop_last());
    }
}

/// The invariant of the machine holds after every step that began with it.
pub proof fn lemma_step_well_formed(m: MachineView, event: EventView)
    requires
        well_formed(m),
    ensures
        well_formed(step(m, event).machine),
{
    lemma_stopped_well_formed(m);
    if m.status is Running && m.tasks.len() > 0 {
        let popped = MachineView { tasks: m.tasks.drop_last(), ..m };
        assert(popped.push(m.tasks.last()).tasks =~= m.tasks);
        lemma_perform_well_formed(popped, m.tasks.last());
    }
}

/// A machine without its top task is well formed if it was with it.
pub proof fn lemma_popped_well_formed(m: MachineView, task: TaskView)
    requires
        well_formed(m.push(task)),
    ensures
        well_formed(m),
{
    let pushed = m.push(task).tasks;
    assert forall|i: int| 0 <= i < m.tasks.len() implies #[trigger] m.tasks[i] == pushed[i] by {}
    assert(marks_valid(m.tasks, m.scopes.len(), m.functions)) by {
        assert forall|i: int| 0 <= i < m.tasks.len() && mark_of(#[trigger] m.tasks[i]) is Some
            implies mark_valid(mark_of(m.tasks[i])->Some_0, m.scopes.len(), m.functions) by {
            assert(m.tasks[i] == pushed[i]);
        }
    }
    assert(marks_ordered(m.tasks)) by {
        assert forall|i: int, j: int|
            0 <= i < j < m.tasks.len() && mark_of(#[trigger] m.tasks[i]) is Some && mark_of(
                #[trigger] m.tasks[j],
            ) is Some implies mark_of(m.tasks[i])->Some_0.scopes <= mark_of(
            m.tasks[j],
        )->Some_0.scopes by {
            assert(m.tasks[i] == pushed[i]);
            assert(m.tasks[j] == pushed[j]);
        }
    }
}

/// A well-formed machine stays so with one more task on its stack that
/// carries no mark.
pub proof fn lemma_pushed_well_formed(m: MachineView, task: TaskView)
    requires
        well_formed(m),
        mark_of(task) is None,
    ensures
        well_formed(m.push(task)),
{
}

/// A well-formed machine stays so with its own mark on its stack.
pub proof fn lemma_marked_well_formed(m: MachineView, task: TaskView)
    requires
        well_formed(m),
        mark_of(task) == Some(mark(m)),
    ensures
        well_formed(m.push(task)),
{
}

/// A well-formed machine stays so when its arena or its closure table
/// grows, as long as what is new refers to what exists.
pub proof fn lemma_grown_well_formed(m: MachineView, after: MachineView)
    requires
        well_formed(m),
        after.tasks == m.tasks,
        chained(after.scopes),
        m.scopes.len() <= after.scopes.len(),
        after.current < after.scopes.len(),
        m.functions.len() <= after.functions.len(),
        forall|k: int| 0 <= k < m.functions.len() ==> after.functions[k] == m.functions[k],
        forall|k: int|
            0 <= k < after.functions.len() ==> (#[trigger] after.functions[k]).closure
                < after.scopes.len(),
    ensures
        well_formed(after),
{
    assert forall|i: int| 0 <= i < after.tasks.len() && mark_of(#[trigger] after.tasks[i]) is Some
        implies mark_valid(mark_of(after.tasks[i])->Some_0, after.scopes.len(), after.functions) by {
        let back = mark_of(m.tasks[i])->Some_0;
        assert(mark_valid(back, m.scopes.len(), m.functions));
        assert forall|k: int| 0 <= k < back.functions implies (
        #[trigger] after.functions[k]).closure < back.scopes by {
            assert(after.functions[k] == m.functions[k]);
        }
    }
}

/// A well-formed machine is well formed back at a mark that was on top of
/// its stack.
pub proof fn lemma_left_well_formed(m: MachineView, task: TaskView)
    requires
        well_formed(m.push(task)),
        mark_of(task) is Some,
    ensures
        well_formed(leave(m, mark_of(task)->Some_0)),
{
    let back = mark_of(task)->Some_0;
    let pushed = m.push(task).tasks;
    let after = leave(m, back);
    lemma_popped_well_formed(m, task);
    assert(pushed[m.tasks.len() as int] == task);
    assert(mark_valid(back, m.scopes.len(), m.functions));
    if m.functions.len() == back.functions {
        assert(after.scopes == m.scopes.take(back.scopes as int));
        assert forall|i: int| 0 <= i < after.tasks.len() && mark_of(#[trigger] after.tasks[i]) is Some
            implies mark_valid(
            mark_of(after.tasks[i])->Some_0,
            after.scopes.len(),
            after.functions,
        ) by {
            assert(after.tasks[i] == pushed[i]);
            assert(mark_of(pushed[i])->Some_0.scopes <= back.scopes);
        }
    }
}

/// The lowest mark on the stack is the mark of a task on the stack.
pub proof fn lemma_lowest_mark(tasks: Seq<TaskView>) -> (i: int)
    requires
        lowest_mark(tasks) is Some,
    ensures
        0 <= i < tasks.len(),
        mark_of(tasks[i]) == lowest_mark(tasks),
    decreases tasks.len(),
{
    if mark_of(tasks[0]) is Some {
        0
    } else {
        let below = lemma_lowest_mark(tasks.drop_first());
        assert(tasks.drop_first()[below] == tasks[below + 1]);
        below + 1
    }
}

/// The invariant of the machine holds after a fatal error.
pub proof fn lemma_stopped_well_formed(m: MachineView)
    requires
        well_formed(m),
    ensures
        well_formed(stopped(m)),
{
    if lowest_mark(m.tasks) is Some {
        let i = lemma_lowest_mark(m.tasks);
        assert(mark_valid(mark_of(m.tasks[i])->Some_0, m.scopes.len(), m.functions));
    }
}

/// The invariant of the machine holds after any task is performed that
/// stood on top of the stack of a well-formed machine.
pub proof fn lemma_perform_well_formed(m: MachineView, task: TaskView)
    requires
        well_formed(m.push(task)),
    ensures
        well_formed(perform(m, task).machine),
{
    lemma_popped_well_formed(m, task);
    lemma_stopped_well_formed(m);
    match task {
        TaskView::Evaluate(e) => {
            lemma_evaluate_well_formed(m, e);
        },
        TaskView::Execute(s) => {
            lemma_execute_well_formed(m, s);
        },
        TaskView::BinaryRight(operator, right) => {
            let first = m.push(TaskView::BinaryApply(operator, m.value));
            lemma_pushed_well_formed(m, TaskView::BinaryApply(operator, m.value));
            lemma_pushed_well_formed(first, TaskView::Evaluate(right));
        },
        TaskView::LogicalRight(operator, right) => {
            lemma_pushed_well_formed(m, TaskView::Evaluate(right));
        },
        TaskView::AssignTo(name) => {
            lemma_assigned_well_formed(m, name.lexeme@, m.value);
        },
        TaskView::CallStart(args) => {
            lemma_call_well_formed(m, m.value, Seq::empty());
            if args.len() > 0 {
                let first = m.push(TaskView::Argument(m.value, args, Seq::empty()));
                lemma_pushed_well_formed(m, TaskView::Argument(m.value, args, Seq::empty()));
                lemma_pushed_well_formed(first, TaskView::Evaluate(args[0]));
            }
        },
        TaskView::Argument(callee, args, values) => {
            let known = values.push(m.value);
            lemma_call_well_formed(m, callee, known);
            if known.len() < args.len() {
                let first = m.push(TaskView::Argument(callee, args, known));
                lemma_pushed_well_formed(m, TaskView::Argument(callee, args, known));
                lemma_pushed_well_formed(first, TaskView::Evaluate(args[known.len() as int]));
            }
        },
        TaskView::Define(name) => {
            lemma_defined_well_formed(m, name.lexeme@, m.value);
        },
        TaskView::Branch(then_branch, else_branch) => {
            lemma_pushed_well_formed(m, TaskView::Execute(then_branch));
            if let Some(branch) = else_branch {
                lemma_pushed_well_formed(m, TaskView::Execute(branch));
            }
        },
        TaskView::Loop(condition, body) => {
            let first = m.push(TaskView::Loop(condition, body));
            let second = first.push(TaskView::Evaluate(condition));
            lemma_pushed_well_formed(m, TaskView::Loop(condition, body));
            lemma_pushed_well_formed(first, TaskView::Evaluate(condition));
            lemma_pushed_well_formed(second, TaskView::Execute(body));
        },
        TaskView::Sequence(stmts, next) => {
            if next < stmts.len() {
                let first = m.push(TaskView::Sequence(stmts, next + 1));
                lemma_pushed_well_formed(m, TaskView::Sequence(stmts, next + 1));
                lemma_pushed_well_formed(first, TaskView::Execute(stmts[next as int]));
            }
        },
        TaskView::LeaveScope(back) => {
            lemma_left_well_formed(m, task);
        },
        TaskView::CallBoundary(back) => {
            lemma_left_well_formed(m, task);
        },
        TaskView::Return => {
            lemma_return_well_formed(m);
        },
        _ => {},
    }
}

/// The invariant of the machine holds after a name is bound in the
/// current scope.
pub proof fn lemma_defined_well_formed(m: MachineView, name: Seq<char>, value: ValueView)
    requires
        well_formed(m),
    ensures
        well_formed(m.with_scopes(defined(m.scopes, m.current, name, value))),
{
    lemma_grown_well_formed(m, m.with_scopes(defined(m.scopes, m.current, name, value)));
}

/// The invariant of the machine holds after an assignment.
pub proof fn lemma_assigned_well_formed(m: MachineView, name: Seq<char>, value: ValueView)
    requires
        well_formed(m),
    ensures
        well_formed(m.with_scopes(assigned(m.scopes, m.current, name, value))),
{
    crate::environment::lemma_resolve_binds(m.scopes, m.current, name);
    lemma_grown_well_formed(m, m.with_scopes(assigned(m.scopes, m.current, name, value)));
}

/// The invariant of the machine holds after a `return`.
pub proof fn lemma_return_well_formed(m: MachineView)
    requires
        well_formed(m),
    ensures
        well_formed(visit_return_stmt(m).machine),
{
    lemma_boundary(m.tasks);
    lemma_stopped_well_formed(m);
    if let Some(i) = boundary(m.tasks) {
        let cut = MachineView { tasks: m.tasks.take(i as int), ..m };
        let task = m.tasks[i as int];
        assert(cut.push(task).tasks =~= m.tasks.take(i + 1 as int));
        let upto = MachineView { tasks: m.tasks.take(i + 1 as int), ..m };
        assert(well_formed(upto)) by {
            assert forall|k: int| 0 <= k < upto.tasks.len() implies #[trigger] upto.tasks[k]
                == m.tasks[k] by {}
        }
        assert(cut.push(task) == upto);
        lemma_left_well_formed(cut, task);
    }
}

/// The invariant of the machine holds after an expression is started.
pub proof fn lemma_evaluate_well_formed(m: MachineView, e: ExprView)
    requires
        well_formed(m),
    ensures
        well_formed(evaluate(m, e).machine),
{
    lemma_stopped_well_formed(m);
    match e {
        ExprView::Grouping(inner) => {
            lemma_pushed_well_formed(m, TaskView::Evaluate(*inner));
        },
        ExprView::Unary(operator, right) => {
            lemma_pushed_well_formed(m, TaskView::UnaryApply(operator));
            lemma_pushed_well_formed(
                m.push(TaskView::UnaryApply(operator)),
                TaskView::Evaluate(*right),
            );
        },
        ExprView::Binary(left, operator, right) => {
            lemma_pushed_well_formed(m, TaskView::BinaryRight(operator, *right));
            lemma_pushed_well_formed(
                m.push(TaskView::BinaryRight(operator, *right)),
                TaskView::Evaluate(*left),
            );
        },
        ExprView::Logical(left, operator, right) => {
            lemma_pushed_well_formed(m, TaskView::LogicalRight(operator, *right));
            lemma_pushed_well_formed(
                m.push(TaskView::LogicalRight(operator, *right)),
                TaskView::Evaluate(*left),
            );
        },
        ExprView::Assign(name, value) => {
            lemma_pushed_well_formed(m, TaskView::AssignTo(name));
            lemma_pushed_well_formed(m.push(TaskView::AssignTo(name)), TaskView::Evaluate(*value));
        },
        ExprView::Call(callee, _, args) => {
            lemma_pushed_well_formed(m, TaskView::CallStart(args));
            lemma_pushed_well_formed(
                m.push(TaskView::CallStart(args)),
                TaskView::Evaluate(*callee),
            );
        },
        _ => {},
    }
}

/// The invariant of the machine holds after a block is entered.
pub proof fn lemma_block_well_formed(m: MachineView, stmts: Seq<StmtView>)
    requires
        well_formed(m),
    ensures
        well_formed(visit_block_stmt(m, stmts).machine),
{
    let opened = m.with_scopes(enclosed(m.scopes, m.current));
    lemma_marked_well_formed(m, TaskView::LeaveScope(mark(m)));
    let noted = m.push(TaskView::LeaveScope(mark(m)));
    lemma_pushed_well_formed(noted, TaskView::Sequence(stmts, 0));
    let scheduled = noted.push(TaskView::Sequence(stmts, 0));
    lemma_grown_well_formed(
        scheduled,
        MachineView { scopes: opened.scopes, current: m.scopes.len(), ..scheduled },
    );
}

/// The invariant of the machine holds after a statement is started.
pub proof fn lemma_execute_well_formed(m: MachineView, s: StmtView)
    requires
        well_formed(m),
    ensures
        well_formed(execute(m, s).machine),
{
    match s {
        StmtView::Expression(e) => {
            lemma_pushed_well_formed(m, TaskView::Evaluate(e));
        },
        StmtView::Print(e) => {
            lemma_pushed_well_formed(m, TaskView::Print);
            lemma_pushed_well_formed(m.push(TaskView::Print), TaskView::Evaluate(e));
        },
        StmtView::Var(name, initializer) => {
            match initializer {
                Some(e) => {
                    lemma_pushed_well_formed(m, TaskView::Define(name));
                    lemma_pushed_well_formed(m.push(TaskView::Define(name)), TaskView::Evaluate(e));
                },
                None => {
                    lemma_defined_well_formed(m, name.lexeme@, ValueView::Nil);
                },
            }
        },
        StmtView::Block(stmts) => {
            lemma_block_well_formed(m, stmts);
        },
        StmtView::If(condition, then_branch, else_branch) => {
            let branch = TaskView::Branch(
                *then_branch,
                match else_branch {
                    Some(other) => Some(*other),
                    None => None,
                },
            );
            lemma_pushed_well_formed(m, branch);
            lemma_pushed_well_formed(m.push(branch), TaskView::Evaluate(condition));
        },
        StmtView::While(condition, body) => {
            lemma_pushed_well_formed(m, TaskView::Loop(condition, *body));
            lemma_pushed_well_formed(
                m.push(TaskView::Loop(condition, *body)),
                TaskView::Evaluate(condition),
            );
        },
        StmtView::Func(name, params, body) => {
            lemma_grown_well_formed(m, visit_func_stmt(m, name, params, body).machine);
        },
        StmtView::Return(_, value) => {
            match value {
                Some(e) => {
                    lemma_pushed_well_formed(m, TaskView::Return);
                    lemma_pushed_well_formed(m.push(TaskView::Return), TaskView::Evaluate(e));
                },
                None => {
                    lemma_return_well_formed(m.with_value(ValueView::Nil));
                },
            }
        },
    }
}

/// The invariant of the machine holds after a function is entered.
pub proof fn lemma_enter_well_formed(m: MachineView, function: FunctionView, args: Seq<ValueView>)
    requires
        well_formed(m),
        function.closure < m.scopes.len(),
    ensures
        well_formed(call(m, function, args)),
{
    let opened = enclosed(m.scopes, function.closure);
    lemma_bound_shape(
        opened,
        m.scopes.len(),
        function.params,
        args,
        least(function.params.len(), args.len()),
    );
    lemma_marked_well_formed(m, TaskView::CallBoundary(mark(m)));
    let noted = m.push(TaskView::CallBoundary(mark(m)));
    lemma_pushed_well_formed(noted, TaskView::Sequence(function.body, 0));
    let scheduled = noted.push(TaskView::Sequence(function.body, 0));
    lemma_grown_well_formed(scheduled, call(m, function, args));
}

/// The invariant of the machine holds after a call is entered or refused.
pub proof fn lemma_call_well_formed(m: MachineView, callee: ValueView, args: Seq<ValueView>)
    requires
        well_formed(m),
    ensures
        well_formed(visit_call_expr(m, callee, args).machine),
{
    lemma_stopped_well_formed(m);
    if let ValueView::Function(id) = callee {
        if id < m.functions.len() && args.len() == m.functions[id as int].params.len() {
            lemma_enter_well_formed(m, m.functions[id as int], args);
        }
    }
}

/// Short circuit: where the left operand decides, it is the value of the
/// whole expression, and the right operand is never scheduled, so nothing
/// in it is ever evaluated.
pub proof fn lemma_short_circuit(
    m: MachineView,
    operator: Token,
    left: ValueView,
    right: ExprView,
)
    requires
        (operator.token_type == TokenType::Or && truthy(left)) || (operator.token_type
            != TokenType::Or && !truthy(left)),
    ensures
        visit_logical_expr(m, operator, left, right) == m.with_value(left).proceed(),
        visit_logical_expr(m, operator, left, right).machine.tasks == m.tasks,
{
}

/// A call with the wrong number of arguments, or of something that is no
/// function, is fatal before anything of the callee happens: no scope is
/// opened, nothing is bound, and nothing is left to run.
pub proof fn lemma_refused_call(m: MachineView, callee: ValueView, args: Seq<ValueView>)
    requires
        !(callee matches ValueView::Function(id) && id < m.functions.len() && args.len()
            == m.functions[id as int].params.len()),
    ensures
        visit_call_expr(m, callee, args).action is Fatal,
        visit_call_expr(m, callee, args).machine.scopes == m.scopes,
        visit_call_expr(m, callee, args).machine.functions == m.functions,
        visit_call_expr(m, callee, args).machine.tasks.len() == 0,
        visit_call_expr(m, callee, args).machine.status == Status::Failed,
        visit_call_expr(m, callee, args).machine.current == outermost(m.tasks, m.current),
        callee is Function && callee->Function_0 < m.functions.len() ==> visit_call_expr(
            m,
            callee,
            args,
        ).action == ActionView::Fatal(
            RuntimeErrorView::WrongArgumentCount {
                expected: m.functions[callee->Function_0 as int].params.len(),
                got: args.len(),
            },
        ),
{
}

/// A `while` begins with its test: executing it schedules the condition,
/// and the decision on its value below it; nothing of the body yet.
pub proof fn lemma_while_begins(
    m: MachineView,
    below: Seq<TaskView>,
    condition: ExprView,
    body: StmtView,
    event: EventView,
)
    requires
        m.status is Running,
        m.tasks == below.push(TaskView::Execute(StmtView::While(condition, Box::new(body)))),
    ensures
        step(m, event) == (MachineView {
            tasks: below.push(TaskView::Loop(condition, body)).push(
                TaskView::Evaluate(condition),
            ),
            ..m
        }).proceed(),
{
    assert(m.tasks.drop_last() =~= below);
}

/// One turn of a `while`. With the tested value in the register, the
/// decision leaves the loop where the value is falsy: only the tasks
/// below are left, and nothing of the body is scheduled. Where it is
/// truthy, the body is scheduled once, then the condition once, then the
/// decision again, in this order and with the same condition and body. So
/// tests and runs of the body alternate, beginning and ending with a test.
pub proof fn lemma_while_turn(
    m: MachineView,
    below: Seq<TaskView>,
    condition: ExprView,
    body: StmtView,
    event: EventView,
)
    requires
        m.status is Running,
        m.tasks == below.push(TaskView::Loop(condition, body)),
    ensures
        !truthy(m.value) ==> step(m, event) == (MachineView { tasks: below, ..m }).proceed(),
        truthy(m.value) ==> step(m, event) == (MachineView {
            tasks: below.push(TaskView::Loop(condition, body)).push(
                TaskView::Evaluate(condition),
            ).push(TaskView::Execute(body)),
            ..m
        }).proceed(),
{
    assert(m.tasks.drop_last() =~= below);
}

/// Whether no task in `tasks` leads out of a block or a call.
pub open spec fn unmarked(tasks: Seq<TaskView>) -> bool {
    forall|i: int| 0 <= i < tasks.len() ==> mark_of(#[trigger] tasks[i]) is None
}

/// The lowest mark is the first from below.
pub proof fn lemma_lowest_mark_position(below: Seq<TaskView>, task: TaskView, above: Seq<TaskView>)
    requires
        unmarked(below),
        mark_of(task) is Some,
    ensures
        lowest_mark(below.push(task) + above) == mark_of(task),
    decreases below.len(),
{
    let tasks = below.push(task) + above;
    if below.len() == 0 {
        assert(tasks[0] == task);
    } else {
        assert(tasks[0] == below[0]);
        assert(tasks.drop_first() =~= below.drop_first().push(task) + above);
        assert forall|i: int| 0 <= i < below.drop_first().len() implies mark_of(
            #[trigger] below.drop_first()[i],
        ) is None by {
            assert(below.drop_first()[i] == below[i + 1]);
        }
        lemma_lowest_mark_position(below.drop_first(), task, above);
    }
}

/// A stack without marks has no lowest mark.
pub proof fn lemma_unmarked(tasks: Seq<TaskView>)
    requires
        unmarked(tasks),
    ensures
        lowest_mark(tasks) is None,
    decreases tasks.len(),
{
    if tasks.len() > 0 {
        assert(mark_of(tasks[0]) is None);
        assert forall|i: int| 0 <= i < tasks.drop_first().len() implies mark_of(
            #[trigger] tasks.drop_first()[i],
        ) is None by {
            assert(tasks.drop_first()[i] == tasks[i + 1]);
        }
        lemma_unmarked(tasks.drop_first());
    }
}

/// A fatal error leaves every block and call on the way out: whatever
/// lies above the outermost of them on the stack, the scope that was
/// current before it was entered is current again, as it would be had
/// each of them been left in turn. Nothing is left to do, and the error is
/// handed to the host as it was raised.
pub proof fn lemma_fatal_restores(
    m: MachineView,
    below: Seq<TaskView>,
    task: TaskView,
    above: Seq<TaskView>,
    error: RuntimeErrorView,
)
    requires
        m.tasks == below.push(task) + above,
        unmarked(below),
        mark_of(task) is Some,
    ensures
        m.fail(error).machine.current == mark_of(task)->Some_0.previous,
        m.fail(error).machine.tasks.len() == 0,
        m.fail(error).machine.status == Status::Failed,
        m.fail(error).action == ActionView::Fatal(error),
{
    lemma_lowest_mark_position(below, task, above);
}

/// A fatal error outside every block and call leaves the current scope as
/// it is.
pub proof fn lemma_fatal_outside(m: MachineView, error: RuntimeErrorView)
    requires
        unmarked(m.tasks),
    ensures
        m.fail(error).machine.current == m.current,
{
    lemma_unmarked(m.tasks);
}

/// A block that a host schedules with `execute_block` is left on every
/// way out with the scope current that was current before: by finishing,
/// by a fatal error anywhere inside it, and by a `return` that finds no
/// call to return from, which is a fatal error.
pub proof fn lemma_block_restores(
    m: MachineView,
    stmts: Seq<StmtView>,
    env: nat,
    above: Seq<TaskView>,
    inside: MachineView,
    error: RuntimeErrorView,
)
    requires
        unmarked(m.tasks),
        inside.tasks == execute_block(m, stmts, env).tasks.drop_last() + above,
    ensures
        perform(inside, TaskView::LeaveScope(mark(m))).machine.current == m.current,
        inside.fail(error).machine.current == m.current,
        no_boundary(above) ==> visit_return_stmt(inside).machine.current == m.current,
{
    let leave_task = TaskView::LeaveScope(mark(m));
    assert(execute_block(m, stmts, env).tasks.drop_last() =~= m.tasks.push(leave_task));
    lemma_lowest_mark_position(m.tasks, leave_task, above);
    if no_boundary(above) {
        assert forall|i: int| 0 <= i < inside.tasks.len() implies !(
        #[trigger] inside.tasks[i] is CallBoundary) by {
            if i < m.tasks.len() {
                assert(inside.tasks[i] == m.tasks[i]);
                assert(mark_of(m.tasks[i]) is None);
            } else if i > m.tasks.len() {
                assert(inside.tasks[i] == above[i - m.tasks.len() - 1]);
            }
        }
        lemma_return_outside(inside);
    }
}

/// Whether no task in `tasks` is a call boundary.
pub open spec fn no_boundary(tasks: Seq<TaskView>) -> bool {
    forall|i: int| 0 <= i < tasks.len() ==> !(#[trigger] tasks[i] is CallBoundary)
}

/// The topmost boundary is the one with no boundary above it.
pub proof fn lemma_boundary_position(below: Seq<TaskView>, back: MarkView, above: Seq<TaskView>)
    requires
        no_boundary(above),
    ensures
        boundary(below.push(TaskView::CallBoundary(back)) + above) == Some(below.len()),
    decreases above.len(),
{
    let stack = below.push(TaskView::CallBoundary(back));
    let tasks = stack + above;
    if above.len() == 0 {
        assert(tasks =~= stack);
    } else {
        assert(tasks.drop_last() =~= stack + above.drop_last());
        assert(tasks.last() == above[above.len() - 1]);
        assert(no_boundary(above.drop_last())) by {
            assert forall|i: int| 0 <= i < above.drop_last().len() implies !(
            #[trigger] above.drop_last()[i] is CallBoundary) by {
                assert(above.drop_last()[i] == above[i]);
            }
        }
        lemma_boundary_position(below, back, above.drop_last());
    }
}

/// A `return` unwinds to the boundary of the innermost call, through
/// whatever blocks and loops lie above it: with `above` free of
/// boundaries, the tasks below the boundary are what is left, the machine
/// is back at the boundary's mark, so that the caller's scope is current
/// again, and the register keeps the returned value.
pub proof fn lemma_return_unwinds(
    m: MachineView,
    below: Seq<TaskView>,
    back: MarkView,
    above: Seq<TaskView>,
)
    requires
        m.tasks == below.push(TaskView::CallBoundary(back)) + above,
        no_boundary(above),
    ensures
        visit_return_stmt(m) == leave(MachineView { tasks: below, ..m }, back).proceed(),
        visit_return_stmt(m).machine.current == back.previous,
        visit_return_stmt(m).machine.value == m.value,
{
    lemma_boundary_position(below, back, above);
    assert(m.tasks.take(below.len() as int) =~= below);
    assert(m.tasks[below.len() as int] == TaskView::CallBoundary(back));
}

/// Leaving a block or a call changes no scope that existed when it was
/// entered: what is given up was opened since.
pub proof fn lemma_leave_keeps_older(m: MachineView, back: MarkView, scope: nat)
    requires
        scope < back.scopes,
        back.scopes <= m.scopes.len(),
    ensures
        leave(m, back).scopes[scope as int] == m.scopes[scope as int],
        back.scopes <= leave(m, back).scopes.len(),
{
}

/// A `return` outside any call is fatal: with no boundary on the stack,
/// the run ends.
pub proof fn lemma_return_outside(m: MachineView)
    requires
        no_boundary(m.tasks),
    ensures
        visit_return_stmt(m) == m.fail(RuntimeErrorView::ReturnOutsideFunction),
{
    lemma_no_boundary(m.tasks);
}

/// A stack without boundaries has no topmost boundary.
pub proof fn lemma_no_boundary(tasks: Seq<TaskView>)
    requires
        no_boundary(tasks),
    ensures
        boundary(tasks) is None,
    decreases tasks.len(),
{
    if tasks.len() > 0 {
        assert(!(tasks[tasks.len() - 1] is CallBoundary));
        assert forall|i: int| 0 <= i < tasks.drop_last().len() implies !(
        #[trigger] tasks.drop_last()[i] is CallBoundary) by {
            assert(tasks.drop_last()[i] == tasks[i]);
        }
        lemma_no_boundary(tasks.drop_last());
    }
}

/// Running in two turns is running in one: where the first `first` steps
/// ask nothing of the host, `first + second` steps end where `second`
/// steps end that follow them. The event is spent by the first step, so
/// with an answer in hand the first turn has to take at least one.
pub proof fn lemma_run_splits(m: MachineView, event: EventView, first: nat, second: nat)
    requires
        run(m, event, first).action is Continue,
        first > 0 || event is Tick,
    ensures
        run(m, event, first + second) == run(
            run(m, event, first).machine,
            EventView::Tick,
            second,
        ),
    decreases first,
{
    if first > 0 {
        let one = step(m, event);
        lemma_run_splits(one.machine, EventView::Tick, (first - 1) as nat, second);
    }
}

/// Whether `tasks` begins with all of `below`.
pub open spec fn extends(tasks: Seq<TaskView>, below: Seq<TaskView>) -> bool {
    below.len() <= tasks.len() && tasks.take(below.len() as int) == below
}

/// Work in progress leaves the work that waits below it alone: whatever a
/// task does, the tasks under it stay as they are, with new ones at most
/// on top of them. The two exceptions are the two ways out: a `return`,
/// which cuts the stack at the boundary of the innermost call, and a fatal
/// error, which empties it.
pub proof fn lemma_perform_keeps_rest(m: MachineView, task: TaskView)
    ensures
        ({
            let after = perform(m, task);
            ||| extends(after.machine.tasks, m.tasks)
            ||| after.action is Fatal && after.machine.tasks.len() == 0
            ||| boundary(m.tasks) matches Some(i) && after.machine.tasks == m.tasks.take(i as int)
        }),
{
    let after = perform(m, task);
    assert(m.tasks.take(m.tasks.len() as int) =~= m.tasks);
    assert forall|one: TaskView| extends(#[trigger] m.tasks.push(one), m.tasks) by {
        assert(m.tasks.push(one).take(m.tasks.len() as int) =~= m.tasks);
    }
    assert forall|one: TaskView, two: TaskView|
        extends(#[trigger] m.tasks.push(one).push(two), m.tasks) by {
        assert(m.tasks.push(one).push(two).take(m.tasks.len() as int) =~= m.tasks);
    }
    assert forall|one: TaskView, two: TaskView, three: TaskView|
        extends(#[trigger] m.tasks.push(one).push(two).push(three), m.tasks) by {
        assert(m.tasks.push(one).push(two).push(three).take(m.tasks.len() as int) =~= m.tasks);
    }
}

/// A machine that has finished or failed never moves again.
pub proof fn lemma_stopped_stays(m: MachineView, event: EventView)
    requires
        m.status == Status::Finished || m.status == Status::Failed,
    ensures
        step(m, event).machine == m,
        !(step(m, event).action is Continue),
{
}

} // verus!

