use aether::ast::{Expr, Program, Stmt};
use aether::lexer::{Lexer, Token};
use aether::parser::Parser;

fn parse(src: &str) -> Program {
    let mut parser = Parser::new(Lexer::new(src));
    parser.parse_program()
}

fn ident(s: &str) -> Expr {
    Expr::Identifier(s.to_string())
}
fn number(s: &str) -> Expr {
    Expr::Number(s.to_string())
}
fn text(s: &str) -> Expr {
    Expr::StringLit(s.to_string())
}
fn binary(l: Expr, op: &str, r: Expr) -> Expr {
    Expr::BinaryOp { left: Box::new(l), operator: op.to_string(), right: Box::new(r) }
}
fn let_stmt(name: &str, value: Expr) -> Stmt {
    Stmt::Let { name: name.to_string(), value }
}

#[test]
fn parses_let_with_number() {
    assert_eq!(parse("let x = 10").statements, vec![let_stmt("x", number("10"))]);
}

#[test]
fn parses_binary_expression() {
    assert_eq!(
        parse("let y = x + 2").statements,
        vec![let_stmt("y", binary(ident("x"), "+", number("2")))]
    );
    assert_eq!(
        parse("let z = a / b").statements,
        vec![let_stmt("z", binary(ident("a"), "/", ident("b")))]
    );
}

#[test]
fn comparison_is_not_a_binary_expression() {
    // `==` is not one of + - * /: the value stops at `a`, and `== b` is skipped.
    assert_eq!(parse("let c = a == b").statements, vec![let_stmt("c", ident("a"))]);
}

#[test]
fn parses_print_with_and_without_parentheses() {
    assert_eq!(
        parse("print(\"Hello \" + name)").statements,
        vec![Stmt::Print { value: binary(text("Hello "), "+", ident("name")) }]
    );
    assert_eq!(parse("print 5").statements, vec![Stmt::Print { value: number("5") }]);
}

#[test]
fn parses_return() {
    assert_eq!(parse("return x").statements, vec![Stmt::Return { value: ident("x") }]);
}

#[test]
fn parses_function_body() {
    assert_eq!(
        parse("fn main() { let a = 1 print a }").statements,
        vec![Stmt::Function {
            name: "main".to_string(),
            body: vec![let_stmt("a", number("1")), Stmt::Print { value: ident("a") }],
        }]
    );
}

#[test]
fn parses_nested_actor() {
    assert_eq!(
        parse("actor Worker { fn run() { return 1 } }").statements,
        vec![Stmt::Actor {
            name: "Worker".to_string(),
            methods: vec![Stmt::Function {
                name: "run".to_string(),
                body: vec![Stmt::Return { value: number("1") }],
            }],
        }]
    );
}

#[test]
fn recovers_after_a_broken_statement() {
    assert_eq!(parse("let = 5 print 1").statements, vec![Stmt::Print { value: number("1") }]);
    assert_eq!(parse("x = 5").statements, vec![]);
    assert_eq!(parse("let a = 1 +").statements, vec![]);
    assert_eq!(parse("").statements, vec![]);
}

#[test]
fn parses_readme_example() {
    let src = "actor Worker {\n    fn process_data(data: String) -> Result<String, Error> {\n        return Ok(f\"Processed: {data}\")\n    }\n}\n\nfn main() {\n    let my_worker = Worker.spawn()\n    let result = my_worker ! process_data(\"Hello from Aether\")\n}\n";
    assert_eq!(
        parse(src).statements,
        vec![
            Stmt::Actor {
                name: "Worker".to_string(),
                methods: vec![Stmt::Function {
                    name: "process_data".to_string(),
                    body: vec![Stmt::Return { value: ident("Ok") }],
                }],
            },
            Stmt::Function {
                name: "main".to_string(),
                body: vec![
                    let_stmt("my_worker", ident("Worker")),
                    let_stmt("result", ident("my_worker")),
                ],
            },
        ]
    );
}

#[test]
fn declared_names_are_never_keywords() {
    // `let` cannot name a variable: the statement fails and the rest is read on.
    assert_eq!(parse("let print = 1").statements, vec![]);
}

#[test]
fn parser_reads_to_eof_and_steps_tokens() {
    let mut parser = Parser::new(Lexer::new("a b c"));
    parser.next_token();
    parser.next_token();
    let program = parser.parse_program();
    assert_eq!(program.statements, vec![]);
    let mut parser = Parser::new(Lexer::new("print 1"));
    let _ = parser.parse_program();
    let again = parser.parse_program();
    assert_eq!(again, Program { statements: vec![] });
    let _ = Token::EOF;
}

#[test]
fn function_headers_take_parameters_and_return_types() {
    assert_eq!(
        parse("fn add(a, b) -> Number { return a + b }").statements,
        vec![Stmt::Function {
            name: "add".to_string(),
            body: vec![Stmt::Return { value: binary(ident("a"), "+", ident("b")) }],
        }]
    );
    assert_eq!(
        parse("fn f(x) { print x }").statements,
        vec![Stmt::Function {
            name: "f".to_string(),
            body: vec![Stmt::Print { value: ident("x") }],
        }]
    );
    assert_eq!(
        parse("fn f() -> { }").statements,
        vec![Stmt::Function { name: "f".to_string(), body: vec![] }]
    );
}

#[test]
fn unclosed_parameter_list_fails_the_function() {
    assert_eq!(parse("fn f(x { print x }").statements, vec![Stmt::Print { value: ident("x") }]);
}

#[test]
fn second_parse_reads_nothing() {
    let mut parser = Parser::new(Lexer::new("fn main() { let a = 1 } print a"));
    let first = parser.parse_program();
    assert_eq!(first.statements.len(), 2);
    assert_eq!(parser.parse_program(), Program { statements: vec![] });
    assert_eq!(parser.parse_program(), Program { statements: vec![] });
}
