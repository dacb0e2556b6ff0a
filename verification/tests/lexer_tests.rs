use aether::lexer::{Lexer, Token};

fn lex_all(src: &str) -> Vec<Token> {
    let mut lexer = Lexer::new(src);
    let mut out = Vec::new();
    loop {
        let t = lexer.next_token();
        let end = t == Token::EOF;
        out.push(t);
        if end {
            break;
        }
    }
    out
}

fn kw(s: &str) -> Token {
    Token::Keyword(s.to_string())
}
fn id(s: &str) -> Token {
    Token::Identifier(s.to_string())
}
fn num(s: &str) -> Token {
    Token::Number(s.to_string())
}
fn op(s: &str) -> Token {
    Token::Operator(s.to_string())
}
fn st(s: &str) -> Token {
    Token::StringLiteral(s.to_string())
}

#[test]
fn lexes_let_statement() {
    assert_eq!(lex_all("let x = 10"), vec![kw("let"), id("x"), op("="), num("10"), Token::EOF]);
}

#[test]
fn empty_input_is_eof_forever() {
    let mut lexer = Lexer::new("");
    assert_eq!(lexer.next_token(), Token::EOF);
    assert_eq!(lexer.next_token(), Token::EOF);
    let mut lexer = Lexer::new("   \n\t ");
    assert_eq!(lexer.next_token(), Token::EOF);
    assert_eq!(lexer.next_token(), Token::EOF);
}

#[test]
fn skips_line_comments() {
    assert_eq!(lex_all("// hi\nprint \"a\" // tail"), vec![kw("print"), st("a"), Token::EOF]);
    assert_eq!(lex_all("//"), vec![Token::EOF]);
    assert_eq!(lex_all("// one\n// two\n  x"), vec![id("x"), Token::EOF]);
    assert_eq!(lex_all("x // c"), vec![id("x"), Token::EOF]);
}

#[test]
fn two_character_operators() {
    assert_eq!(
        lex_all("a == b != c <= d >= e -> f && g || h"),
        vec![
            id("a"),
            op("=="),
            id("b"),
            op("!="),
            id("c"),
            op("<="),
            id("d"),
            op(">="),
            id("e"),
            op("->"),
            id("f"),
            op("&&"),
            id("g"),
            op("||"),
            id("h"),
            Token::EOF
        ]
    );
}

#[test]
fn one_character_operators_and_symbols() {
    assert_eq!(
        lex_all("+-*/=<>!"),
        vec![op("+"), op("-"), op("*"), op("/"), op("="), op("<"), op(">"), op("!"), Token::EOF]
    );
    assert_eq!(lex_all("=>"), vec![op("="), op(">"), Token::EOF]);
    assert_eq!(
        lex_all("( ) { } ; , . & |"),
        vec![
            Token::Symbol('('),
            Token::Symbol(')'),
            Token::Symbol('{'),
            Token::Symbol('}'),
            Token::Symbol(';'),
            Token::Symbol(','),
            Token::Symbol('.'),
            Token::Symbol('&'),
            Token::Symbol('|'),
            Token::EOF
        ]
    );
}

#[test]
fn numbers_take_digits_and_dots() {
    assert_eq!(lex_all("3.14.15"), vec![num("3.14.15"), Token::EOF]);
    assert_eq!(lex_all("12abc"), vec![num("12"), id("abc"), Token::EOF]);
    assert_eq!(lex_all("1_000"), vec![num("1"), id("_000"), Token::EOF]);
}

#[test]
fn keywords_and_identifiers() {
    let words = [
        "actor", "fn", "let", "return", "print", "if", "else", "while", "for", "in", "true",
        "false", "import",
    ];
    for w in words {
        assert_eq!(lex_all(w), vec![kw(w), Token::EOF]);
    }
    assert_eq!(lex_all("letter printx _a1"), vec![id("letter"), id("printx"), id("_a1"), Token::EOF]);
    assert_eq!(lex_all("čas"), vec![id("čas"), Token::EOF]);
}

#[test]
fn string_literals() {
    assert_eq!(lex_all("\"Hello \" x"), vec![st("Hello "), id("x"), Token::EOF]);
    assert_eq!(lex_all("\"a // b\""), vec![st("a // b"), Token::EOF]);
    assert_eq!(lex_all("\"\""), vec![st(""), Token::EOF]);
}

#[test]
fn unterminated_string_runs_to_the_end() {
    let mut lexer = Lexer::new("\"abc");
    assert_eq!(lexer.next_token(), st("abc"));
    assert_eq!(lexer.next_token(), Token::EOF);
    assert_eq!(lexer.next_token(), Token::EOF);
}

#[test]
fn lexing_ends_within_input_length() {
    let src = "fn main() { let a = 1 + 2 print(a) } // done";
    let tokens = lex_all(src);
    assert!(tokens.len() - 1 <= src.chars().count());
    assert_eq!(tokens.last(), Some(&Token::EOF));
}

#[test]
fn whitespace_class_matches_std_on_every_char() {
    for code in 0u32..=0x10FFFF {
        if let Some(c) = char::from_u32(code) {
            assert_eq!(aether::text::char_is_whitespace(c), c.is_whitespace(), "U+{:04X}", code);
        }
    }
}
