use emoji_lang::environment::Environment;
use emoji_lang::error::RuntimeError;
use emoji_lang::function::{Callable, EmojiFunction};
use emoji_lang::interpreter::{Action, Event, Interpreter};
use emoji_lang::return_value::Return;
use emoji_lang::token::{Span, Token, TokenType, Value};

fn name(lexeme: &str) -> Token {
    Token::new(TokenType::Identifier, lexeme.to_string(), None, Span { start: 0, end: lexeme.len() })
}

fn number(n: f64) -> Value {
    Value::Number(n.to_bits())
}

#[test]
fn new_arena_has_the_global_scope_only() {
    let scopes = Environment::new();
    assert_eq!(scopes.len(), 1);
    assert_eq!(
        scopes.get(0, &name("x")),
        Err(RuntimeError::UndefinedVariable("x".to_string()))
    );
}

#[test]
fn define_then_get() {
    let mut scopes = Environment::new();
    scopes.define(0, "x".to_string(), number(1.0));
    assert_eq!(scopes.get(0, &name("x")), Ok(number(1.0)));
    scopes.define(0, "x".to_string(), Value::Text("again".to_string()));
    assert_eq!(scopes.get(0, &name("x")), Ok(Value::Text("again".to_string())));
    scopes.define(0, "y".to_string(), Value::Nil);
    assert_eq!(scopes.get(0, &name("x")), Ok(Value::Text("again".to_string())));
    assert_eq!(scopes.get(0, &name("y")), Ok(Value::Nil));
}

#[test]
fn enclosed_scope_sees_and_shadows_the_enclosing_one() {
    let mut scopes = Environment::new();
    scopes.define(0, "x".to_string(), number(1.0));
    let inner = scopes.new_enclosed(0);
    assert_eq!(inner, 1);
    assert_eq!(scopes.len(), 2);
    assert_eq!(scopes.get(inner, &name("x")), Ok(number(1.0)));
    scopes.define(inner, "x".to_string(), number(2.0));
    assert_eq!(scopes.get(inner, &name("x")), Ok(number(2.0)));
    assert_eq!(scopes.get(0, &name("x")), Ok(number(1.0)));
    assert_eq!(scopes.resolve(inner, &"x".to_string()), Some(inner));
    assert_eq!(scopes.resolve(0, &"x".to_string()), Some(0));
}

#[test]
fn assign_changes_the_innermost_binding() {
    let mut scopes = Environment::new();
    scopes.define(0, "x".to_string(), number(1.0));
    let middle = scopes.new_enclosed(0);
    let inner = scopes.new_enclosed(middle);
    assert_eq!(scopes.assign(inner, name("x"), number(5.0)), Ok(()));
    assert_eq!(scopes.get(0, &name("x")), Ok(number(5.0)));
    assert_eq!(scopes.get(middle, &name("x")), Ok(number(5.0)));
    scopes.define(middle, "x".to_string(), number(7.0));
    assert_eq!(scopes.assign(inner, name("x"), number(9.0)), Ok(()));
    assert_eq!(scopes.get(inner, &name("x")), Ok(number(9.0)));
    assert_eq!(scopes.get(middle, &name("x")), Ok(number(9.0)));
    assert_eq!(scopes.get(0, &name("x")), Ok(number(5.0)));
}

#[test]
fn assign_never_creates_a_binding() {
    let mut scopes = Environment::new();
    let inner = scopes.new_enclosed(0);
    assert_eq!(
        scopes.assign(inner, name("x"), number(1.0)),
        Err(RuntimeError::UndefinedVariable("x".to_string()))
    );
    assert_eq!(scopes.get(inner, &name("x")), Err(RuntimeError::UndefinedVariable("x".to_string())));
    assert_eq!(scopes.get(0, &name("x")), Err(RuntimeError::UndefinedVariable("x".to_string())));
    assert_eq!(scopes.resolve(inner, &"x".to_string()), None);
}

#[test]
fn sibling_scopes_share_their_enclosing_scope() {
    let mut scopes = Environment::new();
    scopes.define(0, "shared".to_string(), number(0.0));
    let left = scopes.new_enclosed(0);
    let right = scopes.new_enclosed(0);
    scopes.define(left, "own".to_string(), number(1.0));
    assert_eq!(scopes.assign(left, name("shared"), number(3.0)), Ok(()));
    assert_eq!(scopes.get(right, &name("shared")), Ok(number(3.0)));
    assert_eq!(scopes.get(right, &name("own")), Err(RuntimeError::UndefinedVariable("own".to_string())));
}

#[test]
fn return_signal_carries_its_value() {
    let signal = Return::new(number(7.0));
    assert_eq!(signal.value, number(7.0));
}

#[test]
fn function_knows_its_arity_and_text() {
    let fname = name("area");
    let params = vec![name("w"), name("h")];
    let body = Vec::new();
    let function = EmojiFunction::new_from(&fname, &params, &body, 0);
    assert_eq!(function.arity(), 2);
    assert_eq!(function.to_text(), "<fn area>");
    assert_eq!(function.closure, 0);
}

#[test]
fn call_binds_parameters_in_a_fresh_scope() {
    let fname = name("f");
    let params = vec![name("a"), name("b")];
    let body = Vec::new();
    let function = EmojiFunction::new_from(&fname, &params, &body, 0);
    let mut interpreter = Interpreter::new();
    interpreter.define(0, "a".to_string(), Value::Text("global".to_string()));
    function.call(&mut interpreter, vec![number(1.0), number(2.0)]);
    let scope = interpreter.environment();
    assert_eq!(scope, 1);
    assert_eq!(interpreter.environments().get(scope, &name("a")), Ok(number(1.0)));
    assert_eq!(interpreter.environments().get(scope, &name("b")), Ok(number(2.0)));
    assert_eq!(interpreter.environments().get(0, &name("a")), Ok(Value::Text("global".to_string())));
    assert_eq!(interpreter.pending(), 2);
    assert_eq!(interpreter.run(Event::Tick, 10), Action::Finished);
    assert_eq!(interpreter.environment(), 0);
    assert_eq!(*interpreter.value(), Value::Nil);
}

#[test]
fn execute_block_runs_in_the_given_scope_and_comes_back() {
    let mut interpreter = Interpreter::new();
    let inner = interpreter.open_scope(0);
    let body = Vec::new();
    interpreter.execute_block(&body, inner);
    assert_eq!(interpreter.environment(), inner);
    assert_eq!(interpreter.run(Event::Tick, 10), Action::Finished);
    assert_eq!(interpreter.environment(), 0);
}

#[test]
fn token_keeps_its_parts() {
    let token = Token::new(
        TokenType::Number,
        "1.5".to_string(),
        Some(number(1.5)),
        Span { start: 3, end: 6 },
    );
    assert_eq!(token.token_type, TokenType::Number);
    assert_eq!(token.lexeme, "1.5");
    assert_eq!(token.value, Some(number(1.5)));
    assert_eq!(token.span, Span { start: 3, end: 6 });
    assert_eq!(token.clone(), token);
}

#[test]
fn release_gives_up_the_youngest_scopes() {
    let mut scopes = Environment::new();
    scopes.define(0, "x".to_string(), number(1.0));
    let first = scopes.new_enclosed(0);
    let second = scopes.new_enclosed(first);
    scopes.define(second, "y".to_string(), number(2.0));
    assert_eq!(scopes.len(), 3);
    scopes.release(1);
    assert_eq!(scopes.len(), 1);
    assert_eq!(scopes.get(0, &name("x")), Ok(number(1.0)));
    let again = scopes.new_enclosed(0);
    assert_eq!(again, 1);
    assert_eq!(scopes.get(again, &name("y")), Err(RuntimeError::UndefinedVariable("y".to_string())));
}

#[test]
fn lexed_text_loses_its_delimiters_and_carries_its_text() {
    let token = Token::lexed(TokenType::Text, "🧵hi there🧵", None, Span { start: 2, end: 18 });
    assert_eq!(token.token_type, TokenType::Text);
    assert_eq!(token.lexeme, "hi there");
    assert_eq!(token.value, Some(Value::Text("hi there".to_string())));
    assert_eq!(token.span, Span { start: 2, end: 18 });
    let empty = Token::lexed(TokenType::Text, "🧵🧵", None, Span { start: 0, end: 8 });
    assert_eq!(empty.lexeme, "");
    assert_eq!(empty.value, Some(Value::Text(String::new())));
}

#[test]
fn lexed_literals_carry_their_values() {
    let span = Span { start: 0, end: 1 };
    let n = Token::lexed(TokenType::Number, "2.5", Some(2.5f64.to_bits()), span);
    assert_eq!(n.lexeme, "2.5");
    assert_eq!(n.value, Some(number(2.5)));
    assert_eq!(Token::lexed(TokenType::Number, "2.5", None, span).value, None);
    assert_eq!(Token::lexed(TokenType::True, "👍", None, span).value, Some(Value::Boolean(true)));
    assert_eq!(Token::lexed(TokenType::False, "👎", None, span).value, Some(Value::Boolean(false)));
    let name = Token::lexed(TokenType::Identifier, "abc", Some(1), span);
    assert_eq!(name.lexeme, "abc");
    assert_eq!(name.value, None);
    assert_eq!(Token::lexed(TokenType::Nil, "🫥", None, span).value, None);
}

fn stmt_reading(lexeme: &str) -> emoji_lang::ast::Stmt {
    emoji_lang::ast::Stmt::expression(emoji_lang::ast::Expr::variable(name(lexeme)))
}

#[test]
fn fatal_error_inside_a_block_makes_the_scope_before_it_current() {
    let body = vec![stmt_reading("missing")];
    let mut interpreter = Interpreter::new();
    let inner = interpreter.open_scope(0);
    interpreter.execute_block(&body, inner);
    assert_eq!(interpreter.environment(), inner);
    assert_eq!(
        interpreter.run(Event::Tick, 10),
        Action::Fatal(RuntimeError::UndefinedVariable("missing".to_string()))
    );
    assert_eq!(interpreter.environment(), 0);
    assert_eq!(interpreter.pending(), 0);
}

#[test]
fn fatal_error_in_nested_blocks_and_calls_leaves_them_all() {
    let fname = name("f");
    let params = Vec::new();
    let inner_body = vec![stmt_reading("missing")];
    let function_body = vec![emoji_lang::ast::Stmt::block(inner_body)];
    let function = EmojiFunction::new_from(&fname, &params, &function_body, 0);
    let outer_body = Vec::new();
    let mut interpreter = Interpreter::new();
    let first = interpreter.open_scope(0);
    interpreter.execute_block(&outer_body, first);
    let second = interpreter.open_scope(first);
    interpreter.execute_block(&outer_body, second);
    function.call(&mut interpreter, Vec::new());
    assert!(interpreter.environment() > second);
    assert_eq!(
        interpreter.run(Event::Tick, 100),
        Action::Fatal(RuntimeError::UndefinedVariable("missing".to_string()))
    );
    assert_eq!(interpreter.environment(), 0);
}

#[test]
fn return_outside_a_call_leaves_the_block_it_is_in() {
    let body = vec![emoji_lang::ast::Stmt::return_(name("return"), None)];
    let mut interpreter = Interpreter::new();
    let inner = interpreter.open_scope(0);
    interpreter.execute_block(&body, inner);
    assert_eq!(
        interpreter.run(Event::Tick, 10),
        Action::Fatal(RuntimeError::ReturnOutsideFunction)
    );
    assert_eq!(interpreter.environment(), 0);
}

#[test]
fn fatal_error_outside_every_block_keeps_the_current_scope() {
    let program = vec![stmt_reading("missing")];
    let mut interpreter = Interpreter::new();
    interpreter.interpret(&program);
    assert_eq!(
        interpreter.run(Event::Tick, 10),
        Action::Fatal(RuntimeError::UndefinedVariable("missing".to_string()))
    );
    assert_eq!(interpreter.environment(), 0);
}

#[test]
fn call_wakes_a_machine_that_had_finished() {
    let fname = name("f");
    let params = vec![name("a")];
    let body = vec![emoji_lang::ast::Stmt::return_(
        name("return"),
        Some(emoji_lang::ast::Expr::variable(name("a"))),
    )];
    let function = EmojiFunction::new_from(&fname, &params, &body, 0);
    let mut interpreter = Interpreter::new();
    assert_eq!(interpreter.step(Event::Tick), Action::Finished);
    assert_eq!(interpreter.status(), emoji_lang::machine::Status::Finished);
    function.call(&mut interpreter, vec![number(7.0)]);
    assert_eq!(interpreter.status(), emoji_lang::machine::Status::Running);
    assert_eq!(interpreter.run(Event::Tick, 100), Action::Finished);
    assert_eq!(*interpreter.value(), number(7.0));
    assert_eq!(interpreter.environment(), 0);
}

#[test]
fn execute_block_and_execute_wake_a_machine_that_had_finished() {
    let body = vec![emoji_lang::ast::Stmt::var(name("x"), None)];
    let mut interpreter = Interpreter::new();
    assert_eq!(interpreter.step(Event::Tick), Action::Finished);
    let inner = interpreter.open_scope(0);
    interpreter.execute_block(&body, inner);
    assert_eq!(interpreter.status(), emoji_lang::machine::Status::Running);
    assert_eq!(interpreter.run(Event::Tick, 100), Action::Finished);
    assert_eq!(interpreter.environment(), 0);
    let stmt = emoji_lang::ast::Stmt::print(emoji_lang::ast::Expr::literal(Value::Nil));
    assert_eq!(interpreter.execute(&stmt), Action::Continue);
    assert_eq!(interpreter.status(), emoji_lang::machine::Status::Running);
    assert_eq!(
        interpreter.run(Event::Tick, 100),
        Action::Print(emoji_lang::interpreter::Output::Text("nil".to_string()))
    );
}
