use emoji_lang::ast::{Expr, Stmt};
use emoji_lang::error::{had_error, RuntimeError};
use emoji_lang::interpreter::{is_equal, is_truthy, Action, Event, Interpreter, Output};
use emoji_lang::machine::Status;
use emoji_lang::parser::{desugar_for, is_terminated, Parser};
use emoji_lang::token::{Span, Token, TokenType, Value};

// A small lexer over a conventional spelling of the language, for the tests:
// `;` ends a statement, `++` concatenates, `fun` declares a function.

fn keyword(word: &str) -> Option<(TokenType, Option<Value>)> {
    match word {
        "and" => Some((TokenType::And, None)),
        "or" => Some((TokenType::Or, None)),
        "true" => Some((TokenType::True, Some(Value::Boolean(true)))),
        "false" => Some((TokenType::False, Some(Value::Boolean(false)))),
        "var" => Some((TokenType::Var, None)),
        "print" => Some((TokenType::Print, None)),
        "return" => Some((TokenType::Return, None)),
        "if" => Some((TokenType::If, None)),
        "else" => Some((TokenType::Else, None)),
        "nil" => Some((TokenType::Nil, None)),
        "while" => Some((TokenType::While, None)),
        "for" => Some((TokenType::For, None)),
        "fun" => Some((TokenType::Function, None)),
        _ => None,
    }
}

fn symbol(text: &str) -> Option<TokenType> {
    match text {
        "(" => Some(TokenType::LeftParen),
        ")" => Some(TokenType::RightParen),
        "{" => Some(TokenType::LeftCurlyBrace),
        "}" => Some(TokenType::RightCurlyBrace),
        "+" => Some(TokenType::Plus),
        "++" => Some(TokenType::TextConcat),
        "-" => Some(TokenType::Minus),
        "/" => Some(TokenType::Slash),
        "*" => Some(TokenType::Star),
        "=" => Some(TokenType::Equal),
        "==" => Some(TokenType::EqualEqual),
        "!" => Some(TokenType::Bang),
        "!=" => Some(TokenType::BangEqual),
        ">" => Some(TokenType::Greater),
        ">=" => Some(TokenType::GreaterEqual),
        "<" => Some(TokenType::Less),
        "<=" => Some(TokenType::LessEqual),
        "," => Some(TokenType::Comma),
        ";" => Some(TokenType::EndOfExpression),
        _ => None,
    }
}

fn lex(source: &str) -> Vec<Token> {
    let bytes = source.as_bytes();
    let mut tokens = Vec::new();
    let mut i = 0;
    while i < bytes.len() {
        let c = bytes[i] as char;
        if c.is_ascii_whitespace() {
            i += 1;
        } else if c.is_ascii_digit() {
            let start = i;
            while i < bytes.len() && ((bytes[i] as char).is_ascii_digit() || bytes[i] == b'.') {
                i += 1;
            }
            let text = &source[start..i];
            let number: f64 = text.parse().unwrap();
            tokens.push(Token::new(
                TokenType::Number,
                text.to_string(),
                Some(Value::Number(number.to_bits())),
                Span { start, end: i },
            ));
        } else if c == '"' {
            let start = i;
            i += 1;
            while bytes[i] != b'"' {
                i += 1;
            }
            let text = &source[start + 1..i];
            i += 1;
            tokens.push(Token::new(
                TokenType::Text,
                text.to_string(),
                Some(Value::Text(text.to_string())),
                Span { start, end: i },
            ));
        } else if c.is_ascii_alphabetic() || c == '_' {
            let start = i;
            while i < bytes.len()
                && ((bytes[i] as char).is_ascii_alphanumeric() || bytes[i] == b'_')
            {
                i += 1;
            }
            let text = &source[start..i];
            let (kind, value) = match keyword(text) {
                Some(found) => found,
                None => (TokenType::Identifier, None),
            };
            tokens.push(Token::new(kind, text.to_string(), value, Span { start, end: i }));
        } else {
            let start = i;
            let two = if i + 2 <= bytes.len() { symbol(&source[i..i + 2]) } else { None };
            let kind = match two {
                Some(kind) => {
                    i += 2;
                    kind
                }
                None => {
                    i += 1;
                    symbol(&source[start..i]).unwrap()
                }
            };
            tokens.push(Token::new(kind, source[start..i].to_string(), None, Span { start, end: i }));
        }
    }
    tokens.push(Token::new(
        TokenType::EndOfFile,
        String::new(),
        None,
        Span { start: source.len(), end: source.len() },
    ));
    tokens
}

fn number(n: f64) -> Value {
    Value::Number(n.to_bits())
}

fn text(s: &str) -> Value {
    Value::Text(s.to_string())
}

// The host's side of the numbers.

fn nearly_equal(a: f64, b: f64) -> bool {
    let epsilon = 1e-8 * a.abs().max(b.abs()).max(1.0);
    (a - b).abs() < epsilon
}

fn compute(kind: TokenType, left: u64, right: u64) -> Value {
    let a = f64::from_bits(left);
    let b = f64::from_bits(right);
    match kind {
        TokenType::Minus => number(a - b),
        TokenType::Star => number(a * b),
        TokenType::Slash => number(a / b),
        TokenType::Plus => number(a + b),
        TokenType::Greater => Value::Boolean(a > b),
        TokenType::GreaterEqual => Value::Boolean(a >= b),
        TokenType::Less => Value::Boolean(a < b),
        TokenType::LessEqual => Value::Boolean(a <= b),
        TokenType::EqualEqual => Value::Boolean(nearly_equal(a, b)),
        TokenType::BangEqual => Value::Boolean(!nearly_equal(a, b)),
        other => panic!("not an operator on numbers: {:?}", other),
    }
}

struct Outcome {
    printed: Vec<String>,
    fatal: Option<RuntimeError>,
    computed: usize,
    reports: Vec<String>,
}

fn parse(source: &str) -> (Vec<Stmt>, Vec<String>) {
    let tokens = lex(source);
    assert!(is_terminated(&tokens));
    let mut parser = Parser::new(tokens);
    let statements = parser.parse();
    let diagnostics = parser.diagnostics();
    let mut reports = Vec::new();
    for i in 0..diagnostics.len() {
        reports.push(diagnostics.line(i).clone());
    }
    (statements, reports)
}

fn drive(interpreter: &mut Interpreter, outcome: &mut Outcome) {
    let mut event = Event::Tick;
    for _ in 0..1_000_000 {
        match interpreter.step(event) {
            Action::Continue => event = Event::Tick,
            Action::Print(Output::Text(line)) => {
                outcome.printed.push(line);
                event = Event::Tick;
            }
            Action::Print(Output::Number(bits)) => {
                outcome.printed.push(format!("{}", f64::from_bits(bits)));
                event = Event::Tick;
            }
            Action::Compute(kind, left, right) => {
                outcome.computed += 1;
                event = Event::Answer(compute(kind, left, right));
            }
            Action::Finished => return,
            Action::Fatal(error) => {
                outcome.fatal = Some(error);
                return;
            }
            Action::Stopped => panic!("stepped a machine that had failed"),
        }
    }
    panic!("the program did not end");
}

fn run(source: &str) -> Outcome {
    let (statements, reports) = parse(source);
    let mut outcome = Outcome { printed: Vec::new(), fatal: None, computed: 0, reports };
    let mut interpreter = Interpreter::new();
    interpreter.interpret(&statements);
    drive(&mut interpreter, &mut outcome);
    outcome
}

fn printed(source: &str) -> Vec<String> {
    let outcome = run(source);
    assert_eq!(outcome.fatal, None);
    assert!(outcome.reports.is_empty(), "{:?}", outcome.reports);
    outcome.printed
}

fn at(kind: TokenType, lexeme: &str, start: usize) -> Token {
    Token::new(kind, lexeme.to_string(), None, Span { start, end: start + lexeme.len() })
}

fn literal(source: &str, start: usize) -> Expr {
    let n: f64 = source.parse().unwrap();
    let _ = start;
    Expr::literal(number(n))
}

// Precedence and associativity.

#[test]
fn multiplication_binds_tighter_than_addition() {
    assert_eq!(printed("print 2 + 3 * 4;"), vec!["14"]);
    assert_eq!(printed("print (2 + 3) * 4;"), vec!["20"]);
}

#[test]
fn product_is_the_right_operand_of_the_sum() {
    let (statements, reports) = parse("2 + 3 * 4;");
    assert!(reports.is_empty());
    let product = Expr::binary(literal("3", 4), at(TokenType::Star, "*", 6), literal("4", 8));
    let sum = Expr::binary(literal("2", 0), at(TokenType::Plus, "+", 2), product);
    assert_eq!(statements, vec![Stmt::expression(sum)]);
}

#[test]
fn binary_operators_associate_to_the_left() {
    let (statements, _) = parse("8 - 3 - 2;");
    let first = Expr::binary(literal("8", 0), at(TokenType::Minus, "-", 2), literal("3", 4));
    let both = Expr::binary(first, at(TokenType::Minus, "-", 6), literal("2", 8));
    assert_eq!(statements, vec![Stmt::expression(both)]);
    assert_eq!(printed("print 8 - 3 - 2;"), vec!["3"]);
    assert_eq!(printed("print 8 / 4 / 2;"), vec!["1"]);
}

#[test]
fn comparison_binds_tighter_than_equality_and_looser_than_sum() {
    assert_eq!(printed("print 1 + 1 < 3 == true;"), vec!["true"]);
    assert_eq!(printed("print 1 < 2 and 2 < 1 or true;"), vec!["true"]);
    assert_eq!(printed("print false and false or true;"), vec!["true"]);
    assert_eq!(printed("print true or false and false;"), vec!["true"]);
}

#[test]
fn unary_binds_tighter_than_binary() {
    assert_eq!(printed("print -2 + 5;"), vec!["3"]);
    assert_eq!(printed("print - -2;"), vec!["2"]);
    assert_eq!(printed("print -(2 + 5);"), vec!["-7"]);
}

#[test]
fn assignment_is_right_associative() {
    assert_eq!(printed("var a; var b; a = b = 3; print a; print b;"), vec!["3", "3"]);
    let (statements, _) = parse("a = b = 3;");
    let inner = Expr::assign(at(TokenType::Identifier, "b", 4), literal("3", 8));
    let outer = Expr::assign(at(TokenType::Identifier, "a", 0), inner);
    assert_eq!(statements, vec![Stmt::expression(outer)]);
}

#[test]
fn assignment_yields_the_assigned_value() {
    assert_eq!(printed("var a = 1; print a = 5; print a;"), vec!["5", "5"]);
}

#[test]
fn calls_chain_and_bind_tighter_than_unary() {
    let source = "fun adder(n) { fun add(m) { return n + m; } return add; } print adder(2)(3); print -adder(1)(1);";
    assert_eq!(printed(source), vec!["5", "-2"]);
}

// Short circuit.

#[test]
fn and_skips_the_right_operand_after_a_falsy_left() {
    let outcome = run("print false and (1 / 0);");
    assert_eq!(outcome.fatal, None);
    assert_eq!(outcome.printed, vec!["false"]);
    assert_eq!(outcome.computed, 0);
    let outcome = run("print nil and missing;");
    assert_eq!(outcome.fatal, None);
    assert_eq!(outcome.printed, vec!["nil"]);
}

#[test]
fn or_skips_the_right_operand_after_a_truthy_left() {
    let outcome = run("print true or (1 / 0);");
    assert_eq!(outcome.fatal, None);
    assert_eq!(outcome.printed, vec!["true"]);
    assert_eq!(outcome.computed, 0);
    let outcome = run("print 7 or missing;");
    assert_eq!(outcome.printed, vec!["7"]);
}

#[test]
fn logical_operators_yield_the_deciding_operand() {
    assert_eq!(printed("print nil or \"x\";"), vec!["x"]);
    assert_eq!(printed("print 1 and 2;"), vec!["2"]);
    assert_eq!(printed("print false or false;"), vec!["false"]);
}

// Closures and scopes.

#[test]
fn closure_sees_a_later_assignment_to_a_captured_variable() {
    let source = "var x = 1; fun get() { return x; } x = 2; print get();";
    assert_eq!(printed(source), vec!["2"]);
}

#[test]
fn closure_assignment_is_seen_outside() {
    let source = "var n = 0; fun bump() { n = n + 1; } bump(); bump(); print n;";
    assert_eq!(printed(source), vec!["2"]);
}

#[test]
fn each_iteration_declares_its_own_closure() {
    let source = "var first; var second; \
        for (var i = 0; i < 2; i = i + 1) { \
            var j = i; \
            fun show() { print j; } \
            if (i == 0) first = show; else second = show; \
        } \
        first(); second();";
    assert_eq!(printed(source), vec!["0", "1"]);
}

#[test]
fn counter_closures_keep_separate_state() {
    let source = "fun counter() { var n = 0; fun next() { n = n + 1; return n; } return next; } \
        var a = counter(); var b = counter(); \
        print a(); print a(); print b();";
    assert_eq!(printed(source), vec!["1", "2", "1"]);
}

#[test]
fn block_scope_shadows_and_ends() {
    let source = "var x = 1; { var x = 2; print x; } print x;";
    assert_eq!(printed(source), vec!["2", "1"]);
}

#[test]
fn block_assigns_to_the_enclosing_variable() {
    let source = "var x = 1; { x = 2; } print x;";
    assert_eq!(printed(source), vec!["2"]);
}

#[test]
fn redefinition_in_one_scope_overwrites() {
    assert_eq!(printed("var x = 1; var x = 2; print x;"), vec!["2"]);
}

#[test]
fn variable_without_initializer_is_nil() {
    assert_eq!(printed("var x; print x;"), vec!["nil"]);
}

#[test]
fn names_are_resolved_when_read() {
    let source = "fun show() { print late; } var late = 3; show();";
    assert_eq!(printed(source), vec!["3"]);
}

// Loops.

#[test]
fn for_loop_prints_zero_one_two() {
    assert_eq!(printed("for (var i = 0; i < 3; i = i + 1) print i;"), vec!["0", "1", "2"]);
}

#[test]
fn for_is_a_while_in_a_block() {
    let (statements, reports) = parse("for (var i = 0; i < 3; i = i + 1) print i;");
    assert!(reports.is_empty());
    let (expected, _) = parse("{ var i = 0; while (i < 3) { print i; i = i + 1; } }");
    assert_eq!(statements.len(), 1);
    match (&statements[0], &expected[0]) {
        (Stmt::Block(got), Stmt::Block(want)) => {
            assert_eq!(got.len(), 2);
            assert!(matches!(got[0], Stmt::Var(_, Some(_))));
            assert!(matches!(want[0], Stmt::Var(_, Some(_))));
            match &got[1] {
                Stmt::While(_, body) => match &**body {
                    Stmt::Block(parts) => {
                        assert_eq!(parts.len(), 2);
                        assert!(matches!(parts[0], Stmt::Print(_)));
                        assert!(matches!(parts[1], Stmt::Expression(Expr::Assign(_, _))));
                    }
                    other => panic!("body is {:?}", other),
                },
                other => panic!("second is {:?}", other),
            }
        }
        other => panic!("{:?}", other),
    }
}

#[test]
fn for_without_clauses_loops_on_true() {
    let (statements, reports) = parse("for (;;) print 1;");
    assert!(reports.is_empty());
    let body = Stmt::print(Expr::literal(number(1.0)));
    let expected = Stmt::while_(Expr::literal(Value::Boolean(true)), body);
    assert_eq!(statements, vec![expected]);
}

#[test]
fn desugared_for_has_the_parts_in_order() {
    let init = Stmt::Var(at(TokenType::Identifier, "i", 0), None);
    let step = Expr::variable(at(TokenType::Identifier, "i", 1));
    let body = Stmt::print(Expr::literal(Value::Nil));
    let got = desugar_for(Some(init), Expr::literal(Value::Boolean(false)), Some(step), body);
    let init = Stmt::Var(at(TokenType::Identifier, "i", 0), None);
    let step = Expr::variable(at(TokenType::Identifier, "i", 1));
    let body = Stmt::print(Expr::literal(Value::Nil));
    let repeated = Stmt::block(vec![body, Stmt::expression(step)]);
    let looped = Stmt::while_(Expr::literal(Value::Boolean(false)), repeated);
    assert_eq!(got, Stmt::block(vec![init, looped]));
}

#[test]
fn while_loop_counts_down() {
    assert_eq!(
        printed("var n = 3; while (n > 0) { print n; n = n - 1; }"),
        vec!["3", "2", "1"]
    );
}

#[test]
fn if_else_chooses_by_truthiness() {
    assert_eq!(printed("if (0) print \"yes\"; else print \"no\";"), vec!["yes"]);
    assert_eq!(printed("if (nil) print \"yes\"; else print \"no\";"), vec!["no"]);
    assert_eq!(printed("if (false) print \"yes\";"), Vec::<String>::new());
    assert_eq!(printed("if (\"\") print \"yes\";"), vec!["yes"]);
}

// Return.

#[test]
fn return_leaves_nested_loops_and_blocks() {
    let source = "fun f() { while (true) { return 7; } } print f(); print \"after\";";
    assert_eq!(printed(source), vec!["7", "after"]);
}

#[test]
fn return_restores_the_callers_scope() {
    let source = "var x = \"outer\"; \
        fun f() { var x = \"inner\"; { { while (true) { return x; } } } } \
        print f(); print x;";
    assert_eq!(printed(source), vec!["inner", "outer"]);
}

#[test]
fn function_without_return_yields_nil() {
    assert_eq!(printed("fun f() { 1 + 1; } print f();"), vec!["nil"]);
    assert_eq!(printed("fun f() { return; } print f();"), vec!["nil"]);
}

#[test]
fn return_stops_the_rest_of_the_body() {
    let source = "fun f() { print 1; return 2; print 3; } print f();";
    assert_eq!(printed(source), vec!["1", "2"]);
}

#[test]
fn recursion_gets_a_scope_per_call() {
    let source = "fun fib(n) { if (n < 2) return n; return fib(n - 1) + fib(n - 2); } print fib(10);";
    assert_eq!(printed(source), vec!["55"]);
}

#[test]
fn return_at_top_level_is_fatal() {
    let outcome = run("print 1; return 2; print 3;");
    assert_eq!(outcome.printed, vec!["1"]);
    assert_eq!(outcome.fatal, Some(RuntimeError::ReturnOutsideFunction));
}

// Values.

#[test]
fn near_numbers_are_equal() {
    assert_eq!(printed("print (0.1 + 0.2) == 0.3;"), vec!["true"]);
    assert_eq!(printed("print (0.1 + 0.2) != 0.3;"), vec!["false"]);
    assert_eq!(printed("print 1 == 1.1;"), vec!["false"]);
}

#[test]
fn equality_across_kinds() {
    assert_eq!(printed("print nil == nil;"), vec!["true"]);
    assert_eq!(printed("print nil == false;"), vec!["false"]);
    assert_eq!(printed("print \"a\" == \"a\";"), vec!["true"]);
    assert_eq!(printed("print \"a\" != \"b\";"), vec!["true"]);
    assert_eq!(printed("print 1 == \"1\";"), vec!["false"]);
    assert_eq!(printed("print true == true;"), vec!["true"]);
    assert_eq!(printed("print true != false;"), vec!["true"]);
    assert_eq!(printed("fun f() {} print f == f;"), vec!["false"]);
}

#[test]
fn equality_of_values_without_numbers() {
    assert_eq!(is_equal(&Value::Nil, &Value::Nil), Some(true));
    assert_eq!(is_equal(&text("a"), &text("a")), Some(true));
    assert_eq!(is_equal(&text("a"), &text("b")), Some(false));
    assert_eq!(is_equal(&Value::Boolean(true), &Value::Boolean(false)), Some(false));
    assert_eq!(is_equal(&Value::Nil, &number(0.0)), Some(false));
    assert_eq!(is_equal(&Value::Function(0), &Value::Function(0)), Some(false));
    assert_eq!(is_equal(&number(1.0), &number(1.0)), None);
}

#[test]
fn truthiness_of_each_kind() {
    assert!(!is_truthy(&Value::Nil));
    assert!(!is_truthy(&Value::Boolean(false)));
    assert!(is_truthy(&Value::Boolean(true)));
    assert!(is_truthy(&number(0.0)));
    assert!(is_truthy(&text("")));
    assert!(is_truthy(&Value::Function(0)));
}

#[test]
fn not_negates_truthiness() {
    assert_eq!(printed("print !true;"), vec!["false"]);
    assert_eq!(printed("print !false;"), vec!["true"]);
    assert_eq!(printed("print !nil;"), vec!["true"]);
    assert_eq!(printed("print !0;"), vec!["false"]);
    assert_eq!(printed("print !\"\";"), vec!["false"]);
    assert_eq!(printed("print !!nil;"), vec!["false"]);
}

#[test]
fn minus_flips_the_sign() {
    assert_eq!(printed("print -3;"), vec!["-3"]);
    assert_eq!(printed("print -(-2.5);"), vec!["2.5"]);
    assert_eq!(printed("print -0;"), vec!["-0"]);
}

#[test]
fn arithmetic_and_comparison() {
    assert_eq!(printed("print 7 - 2;"), vec!["5"]);
    assert_eq!(printed("print 7 * 2;"), vec!["14"]);
    assert_eq!(printed("print 7 / 2;"), vec!["3.5"]);
    assert_eq!(printed("print 1 / 0;"), vec!["inf"]);
    assert_eq!(printed("print 2 > 1;"), vec!["true"]);
    assert_eq!(printed("print 2 >= 2;"), vec!["true"]);
    assert_eq!(printed("print 2 < 1;"), vec!["false"]);
    assert_eq!(printed("print 2 <= 1;"), vec!["false"]);
}

#[test]
fn concatenation_joins_texts() {
    assert_eq!(printed("print \"ab\" ++ \"cd\";"), vec!["abcd"]);
    assert_eq!(printed("print \"a\" ++ \"b\" ++ \"c\";"), vec!["abc"]);
}

#[test]
fn display_forms() {
    assert_eq!(printed("print \"text\";"), vec!["text"]);
    assert_eq!(printed("print 14;"), vec!["14"]);
    assert_eq!(printed("print 2.5;"), vec!["2.5"]);
    assert_eq!(printed("print true;"), vec!["true"]);
    assert_eq!(printed("print false;"), vec!["false"]);
    assert_eq!(printed("print nil;"), vec!["nil"]);
    assert_eq!(printed("fun greet() {} print greet;"), vec!["<fn greet>"]);
}

// Fatal errors.

#[test]
fn wrong_argument_count_is_fatal_before_the_body() {
    let outcome = run("fun f(a) { print \"in\"; } print \"before\"; f(1, 2); print \"after\";");
    assert_eq!(outcome.printed, vec!["before"]);
    assert_eq!(outcome.fatal, Some(RuntimeError::WrongArgumentCount { expected: 1, got: 2 }));
    let outcome = run("fun f(a, b) { print \"in\"; } f(1);");
    assert!(outcome.printed.is_empty());
    assert_eq!(outcome.fatal, Some(RuntimeError::WrongArgumentCount { expected: 2, got: 1 }));
}

#[test]
fn arguments_are_evaluated_before_the_count_is_checked() {
    let outcome = run("fun f() {} fun g() { print \"g\"; return 1; } f(g());");
    assert_eq!(outcome.printed, vec!["g"]);
    assert_eq!(outcome.fatal, Some(RuntimeError::WrongArgumentCount { expected: 0, got: 1 }));
}

#[test]
fn arguments_are_evaluated_left_to_right() {
    let source = "fun show(x) { print x; return x; } fun f(a, b, c) { return a; } f(show(1), show(2), show(3));";
    assert_eq!(printed(source), vec!["1", "2", "3"]);
}

#[test]
fn assigning_an_undeclared_name_is_fatal() {
    let outcome = run("print 1; missing = 2; print 3;");
    assert_eq!(outcome.printed, vec!["1"]);
    assert_eq!(outcome.fatal, Some(RuntimeError::UndefinedVariable("missing".to_string())));
}

#[test]
fn reading_an_undeclared_name_is_fatal() {
    let outcome = run("print 1; print missing; print 3;");
    assert_eq!(outcome.printed, vec!["1"]);
    assert_eq!(outcome.fatal, Some(RuntimeError::UndefinedVariable("missing".to_string())));
}

#[test]
fn block_variable_is_gone_after_the_block() {
    let outcome = run("{ var inner = 1; } print inner;");
    assert_eq!(outcome.fatal, Some(RuntimeError::UndefinedVariable("inner".to_string())));
}

#[test]
fn arithmetic_on_a_text_is_fatal() {
    let outcome = run("print 1 + \"a\";");
    assert_eq!(
        outcome.fatal,
        Some(RuntimeError::OperandsMustBeNumbers(number(1.0), text("a")))
    );
    let outcome = run("print nil < 1;");
    assert_eq!(outcome.fatal, Some(RuntimeError::OperandsMustBeNumbers(Value::Nil, number(1.0))));
    assert_eq!(outcome.computed, 0);
}

#[test]
fn concatenation_of_a_number_is_fatal() {
    let outcome = run("print \"a\" ++ 1;");
    assert_eq!(outcome.fatal, Some(RuntimeError::ConcatenationMismatch(text("a"), number(1.0))));
}

#[test]
fn minus_on_a_text_is_fatal() {
    let outcome = run("print -\"a\";");
    assert_eq!(outcome.fatal, Some(RuntimeError::NotANumber(text("a"))));
}

#[test]
fn calling_a_number_is_fatal() {
    let outcome = run("var x = 1; x();");
    assert_eq!(outcome.fatal, Some(RuntimeError::NotCallable));
    let outcome = run("\"text\"(1);");
    assert_eq!(outcome.fatal, Some(RuntimeError::NotCallable));
}

#[test]
fn fatal_error_inside_a_call_ends_the_run() {
    let outcome = run("fun f() { print 1; print missing; print 2; } f(); print 3;");
    assert_eq!(outcome.printed, vec!["1"]);
    assert_eq!(outcome.fatal, Some(RuntimeError::UndefinedVariable("missing".to_string())));
}

// The protocol between machine and host.

#[test]
fn machine_repeats_its_request_until_answered() {
    let (statements, _) = parse("print 1 + 2;");
    let mut interpreter = Interpreter::new();
    interpreter.interpret(&statements);
    let mut action = interpreter.step(Event::Tick);
    while action == Action::Continue {
        action = interpreter.step(Event::Tick);
    }
    let one = 1.0f64.to_bits();
    let two = 2.0f64.to_bits();
    assert_eq!(action, Action::Compute(TokenType::Plus, one, two));
    assert_eq!(interpreter.status(), Status::Awaiting(TokenType::Plus, one, two));
    assert_eq!(interpreter.step(Event::Tick), Action::Compute(TokenType::Plus, one, two));
    assert_eq!(interpreter.step(Event::Answer(number(3.0))), Action::Continue);
    assert_eq!(interpreter.status(), Status::Running);
    assert_eq!(*interpreter.value(), number(3.0));
    assert_eq!(interpreter.step(Event::Tick), Action::Print(Output::Number(3.0f64.to_bits())));
    assert_eq!(interpreter.run(Event::Tick, 10), Action::Finished);
    assert_eq!(interpreter.status(), Status::Finished);
    assert_eq!(interpreter.step(Event::Tick), Action::Finished);
}

#[test]
fn answer_of_the_wrong_kind_is_fatal() {
    let (statements, _) = parse("print 1 + 2;");
    let mut interpreter = Interpreter::new();
    interpreter.interpret(&statements);
    let action = interpreter.run(Event::Tick, 100);
    assert!(matches!(action, Action::Compute(TokenType::Plus, _, _)));
    assert_eq!(
        interpreter.step(Event::Answer(Value::Boolean(true))),
        Action::Fatal(RuntimeError::UnexpectedAnswer)
    );
    assert_eq!(interpreter.status(), Status::Failed);
    assert_eq!(interpreter.step(Event::Tick), Action::Stopped);
    assert_eq!(interpreter.pending(), 0);

    let (statements, _) = parse("print 1 < 2;");
    let mut interpreter = Interpreter::new();
    interpreter.interpret(&statements);
    let action = interpreter.run(Event::Tick, 100);
    assert!(matches!(action, Action::Compute(TokenType::Less, _, _)));
    assert_eq!(
        interpreter.step(Event::Answer(number(1.0))),
        Action::Fatal(RuntimeError::UnexpectedAnswer)
    );
}

#[test]
fn unasked_answer_is_ignored() {
    let (statements, _) = parse("print \"a\";");
    let mut interpreter = Interpreter::new();
    interpreter.interpret(&statements);
    assert_eq!(interpreter.step(Event::Answer(number(9.0))), Action::Continue);
    assert_eq!(interpreter.run(Event::Answer(number(9.0)), 100), Action::Print(Output::Text("a".to_string())));
}

#[test]
fn run_stops_when_the_budget_is_spent() {
    let (statements, _) = parse("while (true) {}");
    let mut interpreter = Interpreter::new();
    interpreter.interpret(&statements);
    assert_eq!(interpreter.run(Event::Tick, 0), Action::Continue);
    assert_eq!(interpreter.pending(), 1);
    assert_eq!(interpreter.run(Event::Tick, 1000), Action::Continue);
    assert_eq!(interpreter.status(), Status::Running);
    assert!(interpreter.pending() > 0);
}

#[test]
fn empty_program_finishes_at_once() {
    let (statements, reports) = parse("");
    assert!(statements.is_empty());
    assert!(reports.is_empty());
    let mut interpreter = Interpreter::new();
    assert_eq!(interpreter.step(Event::Tick), Action::Finished);
    let outcome = run("");
    assert!(outcome.printed.is_empty());
    assert_eq!(outcome.fatal, None);
}

#[test]
fn scheduled_expression_leaves_its_value_in_the_register() {
    let (statements, _) = parse("\"a\" ++ \"b\";");
    let expr = match &statements[0] {
        Stmt::Expression(e) => e,
        other => panic!("{:?}", other),
    };
    let mut interpreter = Interpreter::new();
    interpreter.schedule_expression(expr);
    assert_eq!(interpreter.run(Event::Tick, 100), Action::Finished);
    assert_eq!(*interpreter.value(), text("ab"));
}

// Parse errors and recovery.

#[test]
fn parser_recovers_after_one_malformed_statement() {
    let outcome = run("print 1; var = 3; print 2;");
    assert_eq!(outcome.reports, vec!["[line 13..14] Error: Expected a variable name"]);
    assert_eq!(outcome.fatal, None);
    assert_eq!(outcome.printed, vec!["1", "2"]);
}

#[test]
fn missing_terminator_is_reported_at_the_next_token() {
    let (statements, reports) = parse("print 1 print 2; print 3;");
    assert_eq!(reports, vec!["[line 8..13] Error: Expected '✊' after value"]);
    assert_eq!(statements, vec![Stmt::print(literal("3", 23))]);
}

#[test]
fn expression_expected_at_end_of_input() {
    let (statements, reports) = parse("print");
    assert!(statements.is_empty());
    assert_eq!(reports, vec!["[line 5..5] Error: Parse error in primary"]);
}

#[test]
fn invalid_assignment_target_is_reported_at_the_equals_sign() {
    let (statements, reports) = parse("1 + 2 = 3; print 4;");
    assert_eq!(reports, vec!["[line 6..7] Error: Invalid assignment target"]);
    assert_eq!(statements.len(), 1);
    assert!(matches!(statements[0], Stmt::Print(_)));
    let (_, reports) = parse("(a) = 3;");
    assert_eq!(reports, vec!["[line 4..5] Error: Invalid assignment target"]);
}

#[test]
fn unclosed_parenthesis_and_block_are_reported() {
    let (_, reports) = parse("print (1 + 2;");
    assert_eq!(reports, vec!["[line 12..13] Error: Expected a right hand `🫲` after expression"]);
    let (statements, reports) = parse("{ print 1;");
    assert_eq!(reports, vec!["[line 10..10] Error: Expected '🫷' after block"]);
    assert!(statements.is_empty());
}

#[test]
fn function_declaration_errors_name_what_is_declared() {
    let (_, reports) = parse("fun (a) {}");
    assert_eq!(reports, vec!["[line 4..5] Error: Expected function name"]);
    let (_, reports) = parse("fun f a) {}");
    assert_eq!(reports, vec!["[line 6..7] Error: Expected '🫱' after function name"]);
    let (_, reports) = parse("fun f(a, 1) {}");
    assert_eq!(reports, vec!["[line 9..10] Error: Expected parameter name"]);
    let (_, reports) = parse("fun f(a b) {}");
    assert_eq!(reports, vec!["[line 8..9] Error: Expected '🫲' after params"]);
    let (_, reports) = parse("fun f(a) print 1;");
    assert_eq!(reports, vec!["[line 9..14] Error: Expected '🫸' before function body"]);
}

#[test]
fn statement_errors_carry_their_messages() {
    let (_, reports) = parse("if 1) print 1;");
    assert_eq!(reports, vec!["[line 3..4] Error: Expected '🫱' after '🤔'"]);
    let (_, reports) = parse("if (1 print 1;");
    assert_eq!(reports, vec!["[line 6..11] Error: Expected '🫲' after '🤔' condition"]);
    let (_, reports) = parse("while 1) print 1;");
    assert_eq!(reports, vec!["[line 6..7] Error: Expected '🫱' after '🌀'"]);
    let (_, reports) = parse("while (1 print 1;");
    assert_eq!(reports, vec!["[line 9..14] Error: Expected '🫲' after '🌀' condition"]);
    let (_, reports) = parse("for var i = 0;;) print 1;");
    assert_eq!(reports[0], "[line 4..7] Error: Expected '🫱' after '⏳'");
    let (_, reports) = parse("for (;1 print 1;");
    assert_eq!(reports[0], "[line 8..13] Error: Expected '✊' after '⏳' loop condition");
    let (_, reports) = parse("for (;;1 print 1;");
    assert_eq!(reports[0], "[line 9..14] Error: Expected '🫲' after '⏳' clause");
    let (_, reports) = parse("var x = 1 print 1;");
    assert_eq!(reports, vec!["[line 10..15] Error: Expected '✊' at the end of variable declaration"]);
    let (_, reports) = parse("return 1 print 1;");
    assert_eq!(reports[0], "[line 9..14] Error: Expected '✊' after return value");
    let (_, reports) = parse("f(1 2);");
    assert_eq!(reports, vec!["[line 4..5] Error: Expected a right hand `🫲` after arguments"]);
}

#[test]
fn failed_initializer_is_passed_over() {
    let (statements, reports) = parse("var x = ; print 1;");
    assert_eq!(reports, vec!["[line 8..9] Error: Parse error in primary"]);
    assert_eq!(statements.len(), 2);
    assert!(matches!(statements[0], Stmt::Var(_, None)));
    assert!(matches!(statements[1], Stmt::Print(_)));
}

#[test]
fn recovery_stops_before_a_statement_keyword() {
    let (statements, reports) = parse("1 + + print 2;");
    assert_eq!(reports, vec!["[line 4..5] Error: Parse error in primary"]);
    assert_eq!(statements, vec![Stmt::print(literal("2", 12))]);
}

#[test]
fn recovery_always_passes_over_the_offending_token() {
    let (statements, reports) = parse("1 + print 2; print 3;");
    assert_eq!(reports, vec!["[line 4..9] Error: Parse error in primary"]);
    assert_eq!(statements, vec![Stmt::print(literal("3", 19))]);
}

#[test]
fn recovery_inside_a_block_keeps_the_block() {
    let outcome = run("{ print 1; var = 2; print 3; } print 4;");
    assert_eq!(outcome.reports, vec!["[line 15..16] Error: Expected a variable name"]);
    assert_eq!(outcome.printed, vec!["1", "3", "4"]);
}

#[test]
fn more_than_255_arguments_are_remarked_not_refused() {
    let mut source = String::from("f(");
    for i in 0..256 {
        if i > 0 {
            source.push_str(", ");
        }
        source.push('1');
    }
    source.push_str(");");
    let (statements, reports) = parse(&source);
    assert_eq!(reports.len(), 1);
    assert!(reports[0].ends_with("Error at '1': Can't have more than 255 arguments"), "{}", reports[0]);
    match &statements[0] {
        Stmt::Expression(Expr::Call(_, _, args)) => assert_eq!(args.len(), 256),
        other => panic!("{:?}", other),
    }
    let mut source = String::from("f(");
    for i in 0..255 {
        if i > 0 {
            source.push_str(", ");
        }
        source.push('1');
    }
    source.push_str(");");
    let (_, reports) = parse(&source);
    assert!(reports.is_empty());
}

#[test]
fn more_than_255_parameters_are_remarked_not_refused() {
    let mut source = String::from("fun f(");
    for i in 0..256 {
        if i > 0 {
            source.push_str(", ");
        }
        source.push_str("p");
    }
    source.push_str(") {}");
    let (statements, reports) = parse(&source);
    assert_eq!(reports.len(), 1);
    assert!(reports[0].ends_with("Error at 'p': Can't have more than 255 params"), "{}", reports[0]);
    match &statements[0] {
        Stmt::Func(_, params, _) => assert_eq!(params.len(), 256),
        other => panic!("{:?}", other),
    }
}

#[test]
fn parse_ends_at_the_end_of_input() {
    let tokens = lex("print 1;");
    let mut parser = Parser::new(tokens);
    let first = parser.parse();
    assert_eq!(first.len(), 1);
    let again = parser.parse();
    assert!(again.is_empty());
}

#[test]
fn tokens_must_end_in_end_of_file() {
    assert!(!is_terminated(&Vec::new()));
    assert!(is_terminated(&lex("")));
    let mut tokens = lex("print 1;");
    tokens.pop();
    assert!(!is_terminated(&tokens));
}

#[test]
fn literal_without_a_value_is_nil() {
    let tokens = vec![
        at(TokenType::Number, "1", 0),
        at(TokenType::EndOfExpression, ";", 1),
        at(TokenType::EndOfFile, "", 2),
    ];
    let mut parser = Parser::new(tokens);
    assert_eq!(parser.parse(), vec![Stmt::expression(Expr::literal(Value::Nil))]);
}

#[test]
fn running_in_two_turns_is_running_in_one() {
    let (statements, _) = parse("var a = \"x\"; { var b = a ++ \"y\"; print b; } print a;");
    let mut once = Interpreter::new();
    once.interpret(&statements);
    let mut twice = Interpreter::new();
    twice.interpret(&statements);
    assert_eq!(twice.run(Event::Tick, 5), Action::Continue);
    let first = once.run(Event::Tick, 5 + 100);
    let second = twice.run(Event::Tick, 100);
    assert_eq!(first, Action::Print(Output::Text("xy".to_string())));
    assert_eq!(first, second);
    assert_eq!(once.pending(), twice.pending());
    assert_eq!(once.environment(), twice.environment());
    assert_eq!(once.value(), twice.value());
}

#[test]
fn parentheses_give_the_other_reading() {
    let (statements, reports) = parse("(2 + 3) * 4;");
    assert!(reports.is_empty());
    let sum = Expr::binary(literal("2", 1), at(TokenType::Plus, "+", 3), literal("3", 5));
    let product = Expr::binary(Expr::grouping(sum), at(TokenType::Star, "*", 8), literal("4", 10));
    assert_eq!(statements, vec![Stmt::expression(product)]);
}

#[test]
fn call_tree_holds_the_closing_parenthesis_and_the_arguments() {
    let (statements, reports) = parse("f(1, g())(2);");
    assert!(reports.is_empty());
    let inner = Expr::call(
        Expr::variable(at(TokenType::Identifier, "g", 5)),
        at(TokenType::RightParen, ")", 7),
        vec![],
    );
    let first = Expr::call(
        Expr::variable(at(TokenType::Identifier, "f", 0)),
        at(TokenType::RightParen, ")", 8),
        vec![literal("1", 2), inner],
    );
    let second = Expr::call(first, at(TokenType::RightParen, ")", 11), vec![literal("2", 10)]);
    assert_eq!(statements, vec![Stmt::expression(second)]);
}

fn scopes_after(source: &str) -> usize {
    let (statements, reports) = parse(source);
    assert!(reports.is_empty());
    let mut outcome = Outcome { printed: Vec::new(), fatal: None, computed: 0, reports };
    let mut interpreter = Interpreter::new();
    interpreter.interpret(&statements);
    drive(&mut interpreter, &mut outcome);
    assert_eq!(outcome.fatal, None);
    assert_eq!(interpreter.environment(), 0);
    interpreter.environments().len()
}

#[test]
fn scopes_of_finished_blocks_and_calls_are_given_up() {
    assert_eq!(scopes_after("var n = 0; while (n < 100) { var m = n; { n = m + 1; } }"), 1);
    assert_eq!(
        scopes_after("fun fib(n) { if (n < 2) return n; return fib(n - 1) + fib(n - 2); } fib(10);"),
        1
    );
    assert_eq!(
        scopes_after("fun f() { { { while (true) { var x = 1; { return x; } } } } } f(); f();"),
        1
    );
}

#[test]
fn scope_of_a_closure_is_kept() {
    let source = "fun counter() { var n = 0; fun next() { n = n + 1; return n; } return next; } \
        var a = counter(); a(); a();";
    assert_eq!(scopes_after(source), 2);
    let source = "var keep; { var x = 1; fun get() { return x; } keep = get; } { var y = 2; } keep();";
    assert_eq!(scopes_after(source), 2);
}

#[test]
fn released_scope_is_not_seen_again() {
    let source = "{ var x = 1; } { print x; }";
    let outcome = run(source);
    assert_eq!(outcome.fatal, Some(RuntimeError::UndefinedVariable("x".to_string())));
    assert_eq!(printed("{ var x = 1; } { var x; print x; }"), vec!["nil"]);
}

#[test]
fn finished_machine_runs_the_next_program_with_what_it_has() {
    let (first, _) = parse("var x = \"kept\"; fun show() { print x; }");
    let (second, _) = parse("show(); x = \"changed\"; show();");
    let mut outcome = Outcome { printed: Vec::new(), fatal: None, computed: 0, reports: Vec::new() };
    let mut interpreter = Interpreter::new();
    interpreter.interpret(&first);
    drive(&mut interpreter, &mut outcome);
    assert_eq!(interpreter.status(), Status::Finished);
    interpreter.interpret(&second);
    assert_eq!(interpreter.status(), Status::Running);
    drive(&mut interpreter, &mut outcome);
    assert_eq!(outcome.fatal, None);
    assert_eq!(outcome.printed, vec!["kept", "changed"]);
}

#[test]
fn failed_machine_stays_failed_when_loaded() {
    let (first, _) = parse("missing;");
    let (second, _) = parse("print 1;");
    let mut outcome = Outcome { printed: Vec::new(), fatal: None, computed: 0, reports: Vec::new() };
    let mut interpreter = Interpreter::new();
    interpreter.interpret(&first);
    drive(&mut interpreter, &mut outcome);
    assert_eq!(interpreter.status(), Status::Failed);
    interpreter.interpret(&second);
    assert_eq!(interpreter.status(), Status::Failed);
    assert_eq!(interpreter.step(Event::Tick), Action::Stopped);
}

#[test]
fn error_flag_is_up_exactly_if_something_was_reported() {
    let mut clean = Parser::new(lex("print 1;"));
    clean.parse();
    assert!(!had_error(clean.diagnostics()));
    assert_eq!(clean.diagnostics().len(), 0);
    let mut malformed = Parser::new(lex("print ;"));
    malformed.parse();
    assert!(had_error(malformed.diagnostics()));
    assert_eq!(malformed.diagnostics().len(), 1);
}

#[test]
fn while_tests_once_more_than_it_runs_its_body() {
    let outcome = run("var n = 0; while (n < 3) { print n; n = n + 1; } print \"done\";");
    assert_eq!(outcome.printed, vec!["0", "1", "2", "done"]);
    // three additions and four tests
    assert_eq!(outcome.computed, 7);
    let outcome = run("while (1 > 2) print \"never\";");
    assert!(outcome.printed.is_empty());
    assert_eq!(outcome.computed, 1);
}
