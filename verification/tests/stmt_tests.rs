use lox::expr::{Expr, Literal};
use lox::scanner::{Token, TokenKind};
use lox::stmt::{
    clone_stmts, clone_tokens, Block, Expression, Function, If, Print, Stmt, Var, Visitor, While,
};

/// A visitor that names the form it was handed and counts its visits.
struct Namer {
    visits: usize,
}

impl Visitor<&'static str> for Namer {
    fn visit_block_stmt(&mut self, stmt: &Block) -> &'static str {
        self.visits += 1 + stmt.statements.len();
        "block"
    }

    fn visit_expression_stmt(&mut self, _: &Expression) -> &'static str {
        self.visits += 1;
        "expression"
    }

    fn visit_function_stmt(&mut self, _: &Function) -> &'static str {
        self.visits += 1;
        "function"
    }

    fn visit_if_stmt(&mut self, _: &If) -> &'static str {
        self.visits += 1;
        "if"
    }

    fn visit_print_stmt(&mut self, _: &Print) -> &'static str {
        self.visits += 1;
        "print"
    }

    fn visit_var_stmt(&mut self, _: &Var) -> &'static str {
        self.visits += 1;
        "var"
    }

    fn visit_while_stmt(&mut self, _: &While) -> &'static str {
        self.visits += 1;
        "while"
    }
}

fn name(text: &str) -> Token {
    Token { kind: TokenKind::Identifier, lexeme: text.as_bytes().to_vec(), line: 3 }
}

fn nil() -> Expr {
    Expr::Literal(Literal::Nil)
}

fn one_of_each() -> Vec<Stmt> {
    vec![
        Stmt::Block(Block { statements: vec![Stmt::Print(Print { expression: nil() })] }),
        Stmt::Expression(Expression { expression: nil() }),
        Stmt::Function(Function { name: name("f"), params: vec![name("a")], body: vec![] }),
        Stmt::If(If {
            condition: nil(),
            then_branch: Box::new(Stmt::Print(Print { expression: nil() })),
            else_branch: None,
        }),
        Stmt::Print(Print { expression: nil() }),
        Stmt::Var(Var { name: name("v"), initializer: None }),
        Stmt::While(While {
            condition: nil(),
            body: Box::new(Stmt::Expression(Expression { expression: nil() })),
        }),
    ]
}

#[test]
fn accept_hands_each_form_to_its_method() {
    let mut namer = Namer { visits: 0 };
    let names: Vec<&str> = one_of_each().iter().map(|stmt| stmt.accept(&mut namer)).collect();
    assert_eq!(names, vec!["block", "expression", "function", "if", "print", "var", "while"]);
    assert_eq!(namer.visits, 8);
}

#[test]
fn clone_keeps_a_statement() {
    let statements = one_of_each();
    let copies = clone_stmts(&statements);
    assert_eq!(format!("{:?}", copies), format!("{:?}", statements));
    for stmt in &statements {
        assert_eq!(format!("{:?}", stmt.clone()), format!("{:?}", stmt));
    }
}

#[test]
fn clone_keeps_an_expression() {
    let expr = Expr::Call(
        Box::new(Expr::Variable(name("f"))),
        name(")"),
        vec![
            Expr::Binary(
                Box::new(Expr::Literal(Literal::Number(1.0f64.to_bits()))),
                name("+"),
                Box::new(Expr::Unary(name("-"), Box::new(Expr::Literal(Literal::Bool(true))))),
            ),
            Expr::Logical(
                Box::new(Expr::Grouping(Box::new(Expr::Literal(Literal::String("s".to_string()))))),
                name("or"),
                Box::new(Expr::Assign(name("x"), Box::new(nil()))),
            ),
        ],
    );
    assert_eq!(format!("{:?}", expr.clone()), format!("{:?}", expr));
    assert_eq!(
        format!("{:?}", lox::expr::clone_exprs(&vec![expr.clone(), nil()])),
        format!("{:?}", vec![expr, nil()])
    );
}

#[test]
fn clone_keeps_tokens() {
    let tokens = vec![name("a"), name("b")];
    assert_eq!(format!("{:?}", clone_tokens(&tokens)), format!("{:?}", tokens));
}
