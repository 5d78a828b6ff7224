use lox::expr::{Expr, Literal};
use lox::interpreter::{Action, Interpreter};
use lox::object::{Object, Rendered};
use lox::runtime_error::{ErrorKind, RuntimeError};
use lox::scanner::{Token, TokenKind};
use lox::stmt::{Block, Expression, Function, If, Print, Stmt, Var, While};

type Native = fn(Vec<Object>) -> Object;

/// Runs the interpreter as a host does: until it is done or has failed.
fn drive(interpreter: &mut Interpreter, natives: &[Native]) -> (Vec<String>, Option<RuntimeError>) {
    let mut lines = Vec::new();
    for _ in 0..1_000_000 {
        match interpreter.step() {
            Action::Continue => {}
            Action::Done => return (lines, None),
            Action::Suspended => panic!("the host resumes after every request"),
            Action::Print(Rendered::Text(text)) => lines.push(String::from_utf8(text).unwrap()),
            Action::Print(Rendered::Number(bits)) => lines.push(format!("{}", f64::from_bits(bits))),
            Action::Arithmetic(operator, left, right) => {
                let (left, right) = (f64::from_bits(left), f64::from_bits(right));
                let result = match operator {
                    TokenKind::Plus => left + right,
                    TokenKind::Minus => left - right,
                    TokenKind::Star => left * right,
                    TokenKind::Slash => left / right,
                    other => panic!("{:?}", other),
                };
                interpreter.resume(Object::new_number(result.to_bits()));
            }
            Action::CallNative(native, arguments) => {
                let result = natives[native](arguments);
                interpreter.resume(result);
            }
            Action::Failed(error) => return (lines, Some(error)),
        }
    }
    panic!("the program does not halt");
}

fn run(statements: Vec<Stmt>) -> (Vec<String>, Option<RuntimeError>) {
    let mut interpreter = Interpreter::new();
    interpreter.interpret(statements);
    drive(&mut interpreter, &[])
}

fn prints(statements: Vec<Stmt>) -> Vec<String> {
    let (lines, error) = run(statements);
    assert!(error.is_none(), "{:?}", error);
    lines
}

fn fails(statements: Vec<Stmt>) -> (Vec<String>, RuntimeError) {
    let (lines, error) = run(statements);
    (lines, error.expect("a failure"))
}

fn token(kind: TokenKind, text: &str) -> Token {
    Token { kind, lexeme: text.as_bytes().to_vec(), line: 1 }
}

fn token_on(kind: TokenKind, text: &str, line: usize) -> Token {
    Token { kind, lexeme: text.as_bytes().to_vec(), line }
}

fn name(text: &str) -> Token {
    token(TokenKind::Identifier, text)
}

fn num(value: f64) -> Expr {
    Expr::Literal(Literal::Number(value.to_bits()))
}

fn string(value: &str) -> Expr {
    Expr::Literal(Literal::String(value.to_string()))
}

fn boolean(value: bool) -> Expr {
    Expr::Literal(Literal::Bool(value))
}

fn nil() -> Expr {
    Expr::Literal(Literal::Nil)
}

fn var(text: &str) -> Expr {
    Expr::Variable(name(text))
}

fn assign(text: &str, value: Expr) -> Expr {
    Expr::Assign(name(text), Box::new(value))
}

fn binary(left: Expr, kind: TokenKind, text: &str, right: Expr) -> Expr {
    Expr::Binary(Box::new(left), token(kind, text), Box::new(right))
}

fn add(left: Expr, right: Expr) -> Expr {
    binary(left, TokenKind::Plus, "+", right)
}

fn less(left: Expr, right: Expr) -> Expr {
    binary(left, TokenKind::Less, "<", right)
}

fn logical(left: Expr, kind: TokenKind, text: &str, right: Expr) -> Expr {
    Expr::Logical(Box::new(left), token(kind, text), Box::new(right))
}

fn unary(kind: TokenKind, text: &str, right: Expr) -> Expr {
    Expr::Unary(token(kind, text), Box::new(right))
}

fn call(callee: Expr, arguments: Vec<Expr>) -> Expr {
    Expr::Call(Box::new(callee), token(TokenKind::RightParen, ")"), arguments)
}

fn group(inner: Expr) -> Expr {
    Expr::Grouping(Box::new(inner))
}

fn print(expression: Expr) -> Stmt {
    Stmt::Print(Print { expression })
}

fn declare(text: &str, initializer: Option<Expr>) -> Stmt {
    Stmt::Var(Var { name: name(text), initializer })
}

fn expression(expression: Expr) -> Stmt {
    Stmt::Expression(Expression { expression })
}

fn block(statements: Vec<Stmt>) -> Stmt {
    Stmt::Block(Block { statements })
}

fn when(condition: Expr, then_branch: Stmt, else_branch: Option<Stmt>) -> Stmt {
    Stmt::If(If {
        condition,
        then_branch: Box::new(then_branch),
        else_branch: else_branch.map(Box::new),
    })
}

fn repeat(condition: Expr, body: Stmt) -> Stmt {
    Stmt::While(While { condition, body: Box::new(body) })
}

fn fun(text: &str, params: &[&str], body: Vec<Stmt>) -> Stmt {
    Stmt::Function(Function {
        name: name(text),
        params: params.iter().map(|param| name(param)).collect(),
        body,
    })
}

#[test]
fn fresh_interpreter_is_done() {
    let mut interpreter = Interpreter::new();
    assert!(interpreter.is_done());
    assert!(!interpreter.is_waiting());
    assert!(matches!(interpreter.step(), Action::Done));
    assert!(matches!(interpreter.step(), Action::Done));
}

#[test]
fn declares_and_prints_a_string() {
    let program = vec![declare("a", Some(string("hi"))), print(var("a"))];
    assert_eq!(prints(program), vec!["hi"]);
}

#[test]
fn scans_and_evaluates_a_declaration_and_a_print() {
    let source = b"var a = \"hi\"; print a;";
    let mut scanner = lox::scanner::Scanner::new(source);
    let mut tokens = Vec::new();
    loop {
        let token = scanner.scan_token();
        let done = token.kind == TokenKind::Eof;
        tokens.push(token);
        if done {
            break;
        }
    }
    let kinds: Vec<TokenKind> = tokens.iter().map(|token| token.kind).collect();
    assert_eq!(
        kinds,
        vec![
            TokenKind::Var,
            TokenKind::Identifier,
            TokenKind::Equal,
            TokenKind::String,
            TokenKind::Semicolon,
            TokenKind::Print,
            TokenKind::Identifier,
            TokenKind::Semicolon,
            TokenKind::Eof,
        ]
    );
    let literal = &tokens[3].lexeme;
    let text = String::from_utf8(literal[1..literal.len() - 1].to_vec()).unwrap();
    let program = vec![
        Stmt::Var(Var {
            name: tokens[1].clone(),
            initializer: Some(Expr::Literal(Literal::String(text))),
        }),
        Stmt::Print(Print { expression: Expr::Variable(tokens[6].clone()) }),
    ];
    assert_eq!(prints(program), vec!["hi"]);
}

#[test]
fn print_renders_every_kind() {
    let program = vec![
        print(nil()),
        print(boolean(true)),
        print(boolean(false)),
        print(num(1.5)),
        print(num(3.0)),
        print(string("text")),
        fun("f", &[], vec![]),
        print(var("f")),
    ];
    assert_eq!(prints(program), vec!["nil", "true", "false", "1.5", "3", "text", "<fn f>"]);
}

#[test]
fn var_without_initializer_is_nil() {
    assert_eq!(prints(vec![declare("a", None), print(var("a"))]), vec!["nil"]);
}

#[test]
fn block_declaration_is_invisible_after_the_block() {
    let program = vec![
        block(vec![declare("x", Some(num(1.0))), print(var("x"))]),
        print(var("x")),
    ];
    let (lines, error) = fails(program);
    assert_eq!(lines, vec!["1"]);
    assert_eq!(error.kind, ErrorKind::UndefinedVariable);
    assert_eq!(error.token.lexeme, b"x".to_vec());
}

#[test]
fn nested_assignment_mutates_the_outer_binding() {
    let program = vec![
        declare("x", Some(num(1.0))),
        block(vec![block(vec![expression(assign("x", num(2.0)))])]),
        print(var("x")),
    ];
    assert_eq!(prints(program), vec!["2"]);
}

#[test]
fn inner_declaration_shadows_the_outer_one() {
    let program = vec![
        declare("x", Some(num(1.0))),
        block(vec![
            declare("x", Some(num(2.0))),
            expression(assign("x", num(3.0))),
            print(var("x")),
        ]),
        print(var("x")),
    ];
    assert_eq!(prints(program), vec!["3", "1"]);
}

#[test]
fn assignment_yields_the_assigned_value() {
    let program = vec![declare("x", None), print(assign("x", num(4.0)))];
    assert_eq!(prints(program), vec!["4"]);
}

#[test]
fn assignment_to_an_undeclared_name_fails() {
    let (lines, error) = fails(vec![expression(assign("x", num(1.0))), print(num(2.0))]);
    assert!(lines.is_empty());
    assert_eq!(error.kind, ErrorKind::UndefinedVariable);
    assert_eq!(error.token.lexeme, b"x".to_vec());
}

#[test]
fn reading_an_undefined_variable_fails_with_its_line() {
    let program = vec![print(Expr::Variable(token_on(TokenKind::Identifier, "ghost", 12)))];
    let (_, error) = fails(program);
    assert_eq!(error.kind, ErrorKind::UndefinedVariable);
    assert_eq!(error.line(), 12);
    assert_eq!(error.message(), "Undefined variable.");
}

#[test]
fn function_with_two_arguments_prints_their_sum_and_yields_nil() {
    let program = vec![
        fun("f", &["a", "b"], vec![print(add(var("a"), var("b")))]),
        print(call(var("f"), vec![num(1.0), num(2.0)])),
    ];
    assert_eq!(prints(program), vec!["3", "nil"]);
}

#[test]
fn function_with_one_argument_too_few_fails_before_the_body_runs() {
    let program = vec![
        fun("f", &["a", "b"], vec![print(string("body")), print(add(var("a"), var("b")))]),
        expression(call(var("f"), vec![num(1.0)])),
    ];
    let (lines, error) = fails(program);
    assert!(lines.is_empty());
    assert_eq!(error.kind, ErrorKind::ArityMismatch);
    assert_eq!(error.token.kind, TokenKind::RightParen);
    assert_eq!(error.message(), "Wrong number of arguments.");
}

#[test]
fn function_with_one_argument_too_many_fails() {
    let program = vec![
        fun("f", &[], vec![print(string("body"))]),
        expression(call(var("f"), vec![num(1.0)])),
    ];
    let (lines, error) = fails(program);
    assert!(lines.is_empty());
    assert_eq!(error.kind, ErrorKind::ArityMismatch);
}

#[test]
fn calling_a_value_that_is_no_function_fails() {
    let (_, error) = fails(vec![expression(call(string("f"), vec![]))]);
    assert_eq!(error.kind, ErrorKind::NotCallable);
    assert_eq!(error.message(), "Can only call functions.");
    let (_, error) = fails(vec![expression(call(nil(), vec![num(1.0)]))]);
    assert_eq!(error.kind, ErrorKind::NotCallable);
}

#[test]
fn arguments_are_evaluated_left_to_right_before_the_call() {
    let program = vec![
        fun("show", &["x"], vec![print(var("x"))]),
        fun("f", &["a", "b", "c"], vec![print(string("body"))]),
        expression(call(
            var("f"),
            vec![
                call(var("show"), vec![num(1.0)]),
                call(var("show"), vec![num(2.0)]),
                call(var("show"), vec![num(3.0)]),
            ],
        )),
    ];
    assert_eq!(prints(program), vec!["1", "2", "3", "body"]);
}

#[test]
fn while_loop_counts_to_three() {
    let program = vec![
        declare("i", Some(num(0.0))),
        repeat(
            less(var("i"), num(3.0)),
            block(vec![print(var("i")), expression(assign("i", add(var("i"), num(1.0))))]),
        ),
    ];
    assert_eq!(prints(program), vec!["0", "1", "2"]);
}

#[test]
fn while_with_a_false_condition_runs_nothing() {
    let program = vec![repeat(boolean(false), print(string("never"))), print(string("after"))];
    assert_eq!(prints(program), vec!["after"]);
}

#[test]
fn if_takes_the_branch_by_truthiness() {
    let program = vec![
        when(num(0.0), print(string("then")), Some(print(string("else")))),
        when(nil(), print(string("then")), Some(print(string("else")))),
        when(boolean(false), print(string("then")), None),
        when(string(""), print(string("empty is truthy")), None),
    ];
    assert_eq!(prints(program), vec!["then", "else", "empty is truthy"]);
}

#[test]
fn arithmetic_on_numbers() {
    let program = vec![
        print(binary(num(7.0), TokenKind::Minus, "-", num(2.0))),
        print(binary(num(7.0), TokenKind::Star, "*", num(2.0))),
        print(binary(num(7.0), TokenKind::Slash, "/", num(2.0))),
        print(add(num(0.5), num(0.25))),
        print(add(add(num(1.0), num(2.0)), group(add(num(3.0), num(4.0))))),
    ];
    assert_eq!(prints(program), vec!["5", "14", "3.5", "0.75", "10"]);
}

#[test]
fn plus_takes_numbers_only_in_either_order() {
    let (_, error) = fails(vec![print(add(string("a"), num(1.0)))]);
    assert_eq!(error.kind, ErrorKind::TypeMismatch);
    assert_eq!(error.token.kind, TokenKind::Plus);
    let (_, error) = fails(vec![print(add(num(1.0), string("a")))]);
    assert_eq!(error.kind, ErrorKind::TypeMismatch);
    let (_, error) = fails(vec![print(add(string("a"), string("b")))]);
    assert_eq!(error.kind, ErrorKind::TypeMismatch);
    assert_eq!(error.message(), "Operands must be numbers.");
}

#[test]
fn comparison_takes_numbers_only() {
    let (_, error) = fails(vec![print(less(nil(), num(1.0)))]);
    assert_eq!(error.kind, ErrorKind::TypeMismatch);
    let (_, error) = fails(vec![print(less(num(1.0), boolean(true)))]);
    assert_eq!(error.kind, ErrorKind::TypeMismatch);
}

#[test]
fn comparisons() {
    let program = vec![
        print(less(num(1.0), num(2.0))),
        print(less(num(2.0), num(2.0))),
        print(binary(num(2.0), TokenKind::LessEqual, "<=", num(2.0))),
        print(binary(num(3.0), TokenKind::Greater, ">", num(2.0))),
        print(binary(num(2.0), TokenKind::GreaterEqual, ">=", num(3.0))),
        print(binary(num(f64::NAN), TokenKind::GreaterEqual, ">=", num(f64::NAN))),
    ];
    assert_eq!(prints(program), vec!["true", "false", "true", "true", "false", "false"]);
}

#[test]
fn equality_over_any_pair() {
    let program = vec![
        print(binary(num(1.0), TokenKind::EqualEqual, "==", num(1.0))),
        print(binary(string("1"), TokenKind::EqualEqual, "==", num(1.0))),
        print(binary(nil(), TokenKind::EqualEqual, "==", nil())),
        print(binary(nil(), TokenKind::EqualEqual, "==", boolean(false))),
        print(binary(num(f64::NAN), TokenKind::EqualEqual, "==", num(f64::NAN))),
        print(binary(num(f64::NAN), TokenKind::BangEqual, "!=", num(f64::NAN))),
        print(binary(string("a"), TokenKind::BangEqual, "!=", string("a"))),
    ];
    assert_eq!(
        prints(program),
        vec!["true", "false", "true", "false", "false", "true", "false"]
    );
}

#[test]
fn unary_operators() {
    let program = vec![
        print(unary(TokenKind::Minus, "-", num(2.0))),
        print(unary(TokenKind::Minus, "-", unary(TokenKind::Minus, "-", num(2.0)))),
        print(unary(TokenKind::Bang, "!", nil())),
        print(unary(TokenKind::Bang, "!", num(0.0))),
        print(unary(TokenKind::Bang, "!", unary(TokenKind::Bang, "!", string("")))),
    ];
    assert_eq!(prints(program), vec!["-2", "2", "true", "false", "true"]);
}

#[test]
fn negation_takes_a_number() {
    let (_, error) = fails(vec![print(unary(TokenKind::Minus, "-", string("a")))]);
    assert_eq!(error.kind, ErrorKind::TypeMismatch);
    assert_eq!(error.token.kind, TokenKind::Minus);
}

#[test]
fn logical_operators_yield_an_operand() {
    let program = vec![
        print(logical(num(1.0), TokenKind::Or, "or", num(2.0))),
        print(logical(nil(), TokenKind::Or, "or", num(2.0))),
        print(logical(num(1.0), TokenKind::And, "and", num(2.0))),
        print(logical(nil(), TokenKind::And, "and", num(2.0))),
    ];
    assert_eq!(prints(program), vec!["1", "2", "2", "nil"]);
}

#[test]
fn short_circuit_suppresses_evaluation_and_effects() {
    let program = vec![
        declare("x", Some(num(0.0))),
        expression(logical(boolean(true), TokenKind::Or, "or", assign("x", num(1.0)))),
        expression(logical(boolean(false), TokenKind::And, "and", assign("x", num(2.0)))),
        expression(logical(boolean(true), TokenKind::Or, "or", var("undefined"))),
        print(var("x")),
        expression(logical(boolean(false), TokenKind::Or, "or", assign("x", num(3.0)))),
        print(var("x")),
    ];
    assert_eq!(prints(program), vec!["0", "3"]);
}

#[test]
fn function_declaration_runs_nothing() {
    let program = vec![fun("f", &[], vec![print(string("body"))]), print(string("after"))];
    assert_eq!(prints(program), vec!["after"]);
}

#[test]
fn function_body_sees_globals_and_mutates_them() {
    let program = vec![
        declare("count", Some(num(0.0))),
        fun("bump", &[], vec![expression(assign("count", add(var("count"), num(1.0))))]),
        expression(call(var("bump"), vec![])),
        expression(call(var("bump"), vec![])),
        print(var("count")),
    ];
    assert_eq!(prints(program), vec!["2"]);
}

#[test]
fn function_body_does_not_see_the_callers_locals() {
    let program = vec![
        fun("peek", &[], vec![print(var("local"))]),
        block(vec![declare("local", Some(num(1.0))), expression(call(var("peek"), vec![]))]),
    ];
    let (lines, error) = fails(program);
    assert!(lines.is_empty());
    assert_eq!(error.kind, ErrorKind::UndefinedVariable);
    assert_eq!(error.token.lexeme, b"local".to_vec());
}

#[test]
fn nested_function_does_not_see_the_enclosing_locals() {
    let program = vec![
        fun(
            "outer",
            &["a"],
            vec![fun("inner", &[], vec![print(var("a"))]), expression(call(var("inner"), vec![]))],
        ),
        expression(call(var("outer"), vec![num(1.0)])),
    ];
    let (_, error) = fails(program);
    assert_eq!(error.kind, ErrorKind::UndefinedVariable);
    assert_eq!(error.token.lexeme, b"a".to_vec());
}

#[test]
fn callers_locals_are_back_after_a_call() {
    let program = vec![
        fun("f", &["x"], vec![declare("y", Some(num(9.0)))]),
        block(vec![
            declare("x", Some(num(1.0))),
            expression(call(var("f"), vec![num(5.0)])),
            print(var("x")),
        ]),
    ];
    assert_eq!(prints(program), vec!["1"]);
}

#[test]
fn parameters_are_bound_in_order() {
    let program = vec![
        fun("f", &["a", "b"], vec![print(var("a")), print(var("b"))]),
        expression(call(var("f"), vec![string("first"), string("second")])),
    ];
    assert_eq!(prints(program), vec!["first", "second"]);
}

#[test]
fn recursion_through_the_global_scope() {
    let program = vec![
        fun(
            "down",
            &["n"],
            vec![when(
                less(num(0.0), var("n")),
                block(vec![
                    print(var("n")),
                    expression(call(
                        var("down"),
                        vec![binary(var("n"), TokenKind::Minus, "-", num(1.0))],
                    )),
                ]),
                None,
            )],
        ),
        expression(call(var("down"), vec![num(3.0)])),
    ];
    assert_eq!(prints(program), vec!["3", "2", "1"]);
}

#[test]
fn failure_inside_a_block_keeps_earlier_mutations_and_drops_the_scopes() {
    let mut interpreter = Interpreter::new();
    interpreter.interpret(vec![
        declare("x", Some(num(1.0))),
        block(vec![
            declare("inner", Some(num(5.0))),
            expression(assign("x", num(2.0))),
            print(var("missing")),
            expression(assign("x", num(3.0))),
        ]),
        print(string("unreached")),
    ]);
    let (lines, error) = drive(&mut interpreter, &[]);
    assert!(lines.is_empty());
    assert_eq!(error.map(|error| error.kind), Some(ErrorKind::UndefinedVariable));
    assert!(interpreter.is_done());
    interpreter.interpret(vec![print(var("x"))]);
    assert_eq!(drive(&mut interpreter, &[]).0, vec!["2"]);
    interpreter.interpret(vec![print(var("inner"))]);
    assert!(drive(&mut interpreter, &[]).1.is_some());
}

#[test]
fn builtins_are_registered_with_define_and_run_by_the_host() {
    fn double(arguments: Vec<Object>) -> Object {
        match &arguments[0] {
            Object::Number(bits) => Object::new_number((f64::from_bits(*bits) * 2.0).to_bits()),
            _ => Object::nil(),
        }
    }
    fn answer(_: Vec<Object>) -> Object {
        Object::new_string("forty-two".to_string())
    }
    let natives: [Native; 2] = [double, answer];
    let mut interpreter = Interpreter::new();
    interpreter.define(b"double", Object::new_builtin_function(1, 0));
    interpreter.define(b"answer", Object::new_builtin_function(0, 1));
    interpreter.interpret(vec![
        print(call(var("double"), vec![num(21.0)])),
        print(call(var("answer"), vec![])),
        print(var("double")),
        print(call(var("double"), vec![])),
    ]);
    let (lines, error) = drive(&mut interpreter, &natives);
    assert_eq!(lines, vec!["42", "forty-two", "<native fn>"]);
    assert_eq!(error.map(|error| error.kind), Some(ErrorKind::ArityMismatch));
}

#[test]
fn a_waiting_interpreter_takes_no_step_until_resumed() {
    let mut interpreter = Interpreter::new();
    interpreter.interpret(vec![print(add(num(1.0), num(2.0)))]);
    let mut request = None;
    for _ in 0..100 {
        match interpreter.step() {
            Action::Continue => {}
            Action::Arithmetic(operator, left, right) => {
                request = Some((operator, left, right));
                break;
            }
            other => panic!("{:?}", other),
        }
    }
    assert_eq!(request, Some((TokenKind::Plus, 1.0f64.to_bits(), 2.0f64.to_bits())));
    assert!(interpreter.is_waiting());
    assert!(!interpreter.is_done());
    assert!(matches!(interpreter.step(), Action::Suspended));
    assert!(matches!(interpreter.step(), Action::Suspended));
    interpreter.resume(Object::new_number(3.0f64.to_bits()));
    assert!(!interpreter.is_waiting());
    assert_eq!(drive(&mut interpreter, &[]).0, vec!["3"]);
}

#[test]
fn resume_is_ignored_where_nothing_was_asked() {
    let mut interpreter = Interpreter::new();
    interpreter.interpret(vec![declare("a", Some(num(1.0))), print(var("a"))]);
    interpreter.resume(Object::new_number(9.0f64.to_bits()));
    assert_eq!(drive(&mut interpreter, &[]).0, vec!["1"]);
}

#[test]
fn execute_block_runs_in_a_scope_of_its_own() {
    let mut interpreter = Interpreter::new();
    interpreter.define(b"x", Object::new_number(1.0f64.to_bits()));
    interpreter.execute_block(vec![declare("x", Some(num(2.0))), print(var("x"))]);
    assert_eq!(drive(&mut interpreter, &[]).0, vec!["2"]);
    interpreter.interpret(vec![print(var("x"))]);
    assert_eq!(drive(&mut interpreter, &[]).0, vec!["1"]);
}

#[test]
fn call_enters_a_function_and_leaves_builtins_to_the_host() {
    let mut interpreter = Interpreter::new();
    let function = Object::new_function(Function {
        name: name("f"),
        params: vec![name("a")],
        body: vec![print(var("a"))],
    });
    let action = function.call(&mut interpreter, vec![Object::new_string("x".to_string())]);
    assert!(matches!(action, Action::Continue));
    assert_eq!(drive(&mut interpreter, &[]).0, vec!["x"]);

    let builtin = Object::new_builtin_function(1, 4);
    let action = builtin.call(&mut interpreter, vec![Object::nil()]);
    assert!(matches!(action, Action::CallNative(4, arguments) if arguments.len() == 1));
    assert!(interpreter.is_waiting());
}

#[test]
fn statements_run_strictly_in_order() {
    let program = vec![
        print(num(1.0)),
        block(vec![print(num(2.0)), block(vec![print(num(3.0))]), print(num(4.0))]),
        print(num(5.0)),
    ];
    assert_eq!(prints(program), vec!["1", "2", "3", "4", "5"]);
}

#[test]
fn run_stops_at_each_request_of_the_host() {
    let mut interpreter = Interpreter::new();
    interpreter.interpret(vec![print(add(num(1.0), num(2.0))), print(string("end"))]);
    assert!(matches!(
        interpreter.run(1000),
        Action::Arithmetic(TokenKind::Plus, left, right)
            if left == 1.0f64.to_bits() && right == 2.0f64.to_bits()
    ));
    assert!(matches!(interpreter.run(1000), Action::Suspended));
    interpreter.resume(Object::new_number(3.0f64.to_bits()));
    assert!(matches!(interpreter.run(1000), Action::Print(Rendered::Number(bits)) if bits == 3.0f64.to_bits()));
    assert!(matches!(interpreter.run(1000), Action::Print(Rendered::Text(text)) if text == b"end"));
    assert!(matches!(interpreter.run(1000), Action::Done));
    assert!(interpreter.is_done());
}

#[test]
fn run_without_budget_takes_no_step() {
    let mut interpreter = Interpreter::new();
    interpreter.interpret(vec![print(num(1.0))]);
    assert!(matches!(interpreter.run(0), Action::Continue));
    assert!(!interpreter.is_done());
    assert!(matches!(interpreter.run(usize::MAX), Action::Print(_)));
}

#[test]
fn run_of_an_endless_loop_ends_with_its_budget() {
    let mut interpreter = Interpreter::new();
    interpreter.interpret(vec![repeat(boolean(true), block(vec![]))]);
    assert!(matches!(interpreter.run(10_000), Action::Continue));
    assert!(matches!(interpreter.run(10_000), Action::Continue));
    assert!(!interpreter.is_done());
}

#[test]
fn run_reports_a_failure() {
    let mut interpreter = Interpreter::new();
    interpreter.interpret(vec![print(var("missing")), print(num(1.0))]);
    assert!(matches!(
        interpreter.run(1000),
        Action::Failed(error) if error.kind == ErrorKind::UndefinedVariable
    ));
    assert!(matches!(interpreter.run(1000), Action::Done));
}
