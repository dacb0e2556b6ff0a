//! The parser: reads statements from a lexer, looking one token ahead.
//!
//! Its model works on a [`ParseState`]: the source text, the lexer's position, the current
//! token and the one after it. Each parsing function of the parser has a model of the
//! same name with `_spec` appended that gives its result and the state it leaves.
use vstd::prelude::*;
use crate::ast::{
    Expr, Program, SpecExpr, SpecStmt, Stmt, is_atom, lemma_stmts_view_push, stmts_view,
};
use crate::lexer::{
    Lexer, SpecToken, Token, is_keyword, lemma_eof_is_final, lemma_next_token_progress, lemma_token_start_bounds, lemma_token_well_formed,
    next_token_spec, token_well_formed,
};
use crate::text::{contains_seq, contains_text, occurs_at, text_is};

verus! {

/// The state of parsing: the source, the lexer's position, the current token and the
/// token after it.
pub struct ParseState {
    pub input: Seq<char>,
    pub pos: int,
    pub cur: SpecToken,
    pub peek: SpecToken,
}

/// The state after moving one token forward.
pub open spec fn advance(st: ParseState) -> ParseState {
    let (t, p) = next_token_spec(st.input, st.pos);
    ParseState { input: st.input, pos: p, cur: st.peek, peek: t }
}

/// The state of a parser built on a lexer at position `pos` of `input`: the first two
/// tokens are read.
pub open spec fn start_state(input: Seq<char>, pos: int) -> ParseState {
    let (t1, p1) = next_token_spec(input, pos);
    let (t2, p2) = next_token_spec(input, p1);
    ParseState { input, pos: p2, cur: t1, peek: t2 }
}

/// The lexer's position is within its bounds.
pub open spec fn valid(st: ParseState) -> bool {
    0 <= st.pos <= st.input.len() + 1
}

/// A measure of the work left, which every step of parsing lowers or keeps.
pub open spec fn measure(st: ParseState) -> nat {
    (3 * (st.input.len() + 2 - st.pos) + (if st.cur is EOF {
        0int
    } else {
        1int
    }) + (if st.peek is EOF {
        0int
    } else {
        1int
    })) as nat
}

/// The expression that a single token stands for, if it is an atom.
pub open spec fn atom_of(t: SpecToken) -> Option<SpecExpr> {
    match t {
        SpecToken::Number(n) => Some(SpecExpr::Number(n)),
        SpecToken::StringLiteral(s) => Some(SpecExpr::StringLit(s)),
        SpecToken::Identifier(i) => Some(SpecExpr::Identifier(i)),
        _ => None,
    }
}

/// The operators that may join two atoms: those whose text occurs in `+-*/`.
pub open spec fn is_arith_operator(op: Seq<char>) -> bool {
    contains_seq("+-*/"@, op)
}

/// An expression starting at the current token: an atom, or an atom, an arithmetic
/// operator and an atom. On success the current token is the last token of the
/// expression.
pub open spec fn parse_expression_spec(st: ParseState) -> (Option<SpecExpr>, ParseState) {
    match atom_of(st.cur) {
        None => (None, st),
        Some(left) => match st.peek {
            SpecToken::Operator(op) => if is_arith_operator(op) {
                let st2 = advance(advance(st));
                match atom_of(st2.cur) {
                    None => (None, st2),
                    Some(right) => (
                        Some(
                            SpecExpr::BinaryOp {
                                left: Box::new(left),
                                operator: op,
                                right: Box::new(right),
                            },
                        ),
                        st2,
                    ),
                }
            } else {
                (Some(left), st)
            },
            _ => (Some(left), st),
        },
    }
}

/// `let <identifier> = <expression>`, from the `let` keyword.
pub open spec fn parse_let_spec(st: ParseState) -> (Option<SpecStmt>, ParseState) {
    let st1 = advance(st);
    match st1.cur {
        SpecToken::Identifier(name) => {
            let st2 = advance(st1);
            if st2.cur != SpecToken::Operator("="@) {
                (None, st2)
            } else {
                let (e, st4) = parse_expression_spec(advance(st2));
                match e {
                    None => (None, st4),
                    Some(value) => (Some(SpecStmt::Let { name, value }), advance(st4)),
                }
            }
        },
        _ => (None, st1),
    }
}

/// `return <expression>`, from the `return` keyword.
pub open spec fn parse_return_spec(st: ParseState) -> (Option<SpecStmt>, ParseState) {
    let (e, st2) = parse_expression_spec(advance(st));
    match e {
        None => (None, st2),
        Some(value) => (Some(SpecStmt::Return { value }), advance(st2)),
    }
}

/// `print <expression>` or `print(<expression>)`, from the `print` keyword.
pub open spec fn parse_print_spec(st: ParseState) -> (Option<SpecStmt>, ParseState) {
    let st1 = advance(st);
    let has_parens = st1.cur == SpecToken::Symbol('(');
    let st2 = if has_parens {
        advance(st1)
    } else {
        st1
    };
    let (e, st3) = parse_expression_spec(st2);
    match e {
        None => (None, st3),
        Some(value) => {
            let st4 = advance(st3);
            let st5 = if has_parens && st4.cur == SpecToken::Symbol(')') {
                advance(st4)
            } else {
                st4
            };
            (Some(SpecStmt::Print { value }), st5)
        },
    }
}

/// The current token is the given keyword.
pub open spec fn is_keyword_token(t: SpecToken, word: Seq<char>) -> bool {
    t matches SpecToken::Keyword(k) && k == word
}

/// A statement starting at the current token. Only `let`, `return`, `print`, `fn` and
/// `actor` start a statement; at any other token nothing is read and the result is
/// `None`.
pub open spec fn parse_statement_spec(st: ParseState) -> (Option<SpecStmt>, ParseState)
    decreases measure(st), 2nat,
{
    if is_keyword_token(st.cur, "let"@) {
        parse_let_spec(st)
    } else if is_keyword_token(st.cur, "return"@) {
        parse_return_spec(st)
    } else if is_keyword_token(st.cur, "print"@) {
        parse_print_spec(st)
    } else if is_keyword_token(st.cur, "fn"@) {
        parse_function_spec(st)
    } else if is_keyword_token(st.cur, "actor"@) {
        parse_actor_spec(st)
    } else {
        (None, st)
    }
}

/// A token at which a function header's parameter list or return type ends: `)`, `{`,
/// `}` or `EOF`.
pub open spec fn is_header_stop(t: SpecToken) -> bool {
    t is EOF || t == SpecToken::Symbol(')') || t == SpecToken::Symbol('{') || t
        == SpecToken::Symbol('}')
}

/// Skips the tokens of a parameter list or a return type, up to the next header stop.
pub open spec fn skip_header_spec(st: ParseState) -> ParseState
    decreases measure(st),
{
    if !valid(st) || is_header_stop(st.cur) {
        st
    } else {
        proof {
            lemma_advance(st);
        }
        skip_header_spec(advance(st))
    }
}

/// The header of a function, from the `fn` keyword: `fn <identifier>(<parameters>)`,
/// optionally followed by `-> <return type>`, up to the `{` that opens the body. The
/// parameters and the return type may be any tokens other than `)`, `{`, `}` and `EOF`;
/// they are read past, not kept. On success the result is the function's name and the
/// `{` is the current token.
pub open spec fn function_header_spec(st: ParseState) -> (Option<Seq<char>>, ParseState) {
    let st1 = advance(st);
    match st1.cur {
        SpecToken::Identifier(name) => {
            let st2 = advance(st1);
            if st2.cur != SpecToken::Symbol('(') {
                (None, st2)
            } else {
                let st3 = skip_header_spec(advance(st2));
                if st3.cur != SpecToken::Symbol(')') {
                    (None, st3)
                } else {
                    let st4 = advance(st3);
                    let st5 = if st4.cur == SpecToken::Operator("->"@) {
                        skip_header_spec(advance(st4))
                    } else {
                        st4
                    };
                    if st5.cur != SpecToken::Symbol('{') {
                        (None, st5)
                    } else {
                        (Some(name), st5)
                    }
                }
            }
        },
        _ => (None, st1),
    }
}

/// `fn <identifier>(<parameters>) -> <return type> { <statements> }`, from the `fn`
/// keyword; the return type is optional.
pub open spec fn parse_function_spec(st: ParseState) -> (Option<SpecStmt>, ParseState)
    decreases measure(st), 1nat,
{
    if !valid(st) || st.cur is EOF {
        (None, st)
    } else {
        let (header, sth) = function_header_spec(st);
        match header {
            None => (None, sth),
            Some(name) => {
                proof {
                    lemma_function_header(st);
                }
                let (body, st6) = parse_sequence_spec(advance(sth), true);
                (Some(SpecStmt::Function { name, body }), advance(st6))
            },
        }
    }
}

/// Skipping header tokens keeps the state valid, never raises the measure, keeps the
/// tokens' shapes, and stops at a header stop.
pub proof fn lemma_skip_header(st: ParseState)
    requires
        valid(st),
    ensures
        valid(skip_header_spec(st)),
        skip_header_spec(st).input == st.input,
        measure(skip_header_spec(st)) <= measure(st),
        is_header_stop(skip_header_spec(st).cur),
        tokens_well_formed(st) ==> tokens_well_formed(skip_header_spec(st)),
        lookahead_consistent(st) ==> lookahead_consistent(skip_header_spec(st)),
    decreases measure(st),
{
    if !is_header_stop(st.cur) {
        lemma_advance(st);
        if tokens_well_formed(st) {
            lemma_advance_well_formed(st);
        }
        lemma_skip_header(advance(st));
    }
}

/// Reading a function header keeps the state valid and lowers the measure; on success
/// the `{` is current, after the state has moved on, and the measure is still lower once
/// past it. Well-formed tokens give a declared name.
pub proof fn lemma_function_header(st: ParseState)
    requires
        valid(st),
        !(st.cur is EOF),
    ensures
        valid(function_header_spec(st).1),
        function_header_spec(st).1.input == st.input,
        measure(function_header_spec(st).1) < measure(st),
        function_header_spec(st).0 is Some ==> function_header_spec(st).1.cur == SpecToken::Symbol(
            '{',
        ),
        valid(advance(function_header_spec(st).1)),
        advance(function_header_spec(st).1).input == st.input,
        measure(advance(function_header_spec(st).1)) < measure(st),
        tokens_well_formed(st) ==> tokens_well_formed(function_header_spec(st).1),
        tokens_well_formed(st) ==> tokens_well_formed(advance(function_header_spec(st).1)),
        tokens_well_formed(st) && function_header_spec(st).0 is Some ==> is_declared_name(
            function_header_spec(st).0->0,
        ),
        lookahead_consistent(st) ==> lookahead_consistent(function_header_spec(st).1),
        lookahead_consistent(st) ==> lookahead_consistent(advance(function_header_spec(st).1)),
{
    let st1 = advance(st);
    let st2 = advance(st1);
    lemma_advance(st);
    lemma_advance(st1);
    lemma_advance(st2);
    if tokens_well_formed(st) {
        lemma_advance_well_formed(st);
        lemma_advance_well_formed(st1);
        lemma_advance_well_formed(st2);
    }
    let st3 = skip_header_spec(advance(st2));
    lemma_skip_header(advance(st2));
    lemma_advance(st3);
    if tokens_well_formed(st) {
        lemma_advance_well_formed(st3);
    }
    let st4 = advance(st3);
    lemma_advance(st4);
    if tokens_well_formed(st) {
        lemma_advance_well_formed(st4);
    }
    lemma_skip_header(advance(st4));
    let sth = function_header_spec(st).1;
    lemma_advance(sth);
    if tokens_well_formed(st) {
        lemma_advance_well_formed(sth);
    }
}

/// `actor <identifier> { <statements> }`, from the `actor` keyword.
pub open spec fn parse_actor_spec(st: ParseState) -> (Option<SpecStmt>, ParseState)
    decreases measure(st), 1nat,
{
    if !valid(st) || st.cur is EOF {
        (None, st)
    } else {
        let st1 = advance(st);
        match st1.cur {
            SpecToken::Identifier(name) => {
                let st2 = advance(st1);
                if st2.cur != SpecToken::Symbol('{') {
                    (None, st2)
                } else {
                    let st3 = advance(st2);
                    proof {
                        lemma_advance(st);
                        lemma_advance(st1);
                        lemma_advance(st2);
                    }
                    let (methods, st4) = parse_sequence_spec(st3, true);
                    (Some(SpecStmt::Actor { name, methods }), advance(st4))
                }
            },
            _ => (None, st1),
        }
    }
}

/// The sequence ends here: at `EOF`, or at `}` inside braces.
pub open spec fn at_sequence_end(st: ParseState, in_braces: bool) -> bool {
    st.cur is EOF || (in_braces && st.cur == SpecToken::Symbol('}'))
}

/// Statements until the end of the sequence. A token that does not start a statement,
/// and the token at which a statement failed, are skipped. The measure test always
/// passes on valid states (`lemma_sequence_progress`); it only makes the definition
/// total.
pub open spec fn parse_sequence_spec(st: ParseState, in_braces: bool) -> (
    Seq<SpecStmt>,
    ParseState,
)
    decreases measure(st), 3nat,
{
    if !valid(st) || at_sequence_end(st, in_braces) {
        (Seq::empty(), st)
    } else {
        let (s, st1) = parse_statement_spec(st);
        let st2 = match s {
            Some(_) => st1,
            None => advance(st1),
        };
        if measure(st2) < measure(st) {
            let (rest, st3) = parse_sequence_spec(st2, in_braces);
            match s {
                Some(x) => (seq![x] + rest, st3),
                None => (rest, st3),
            }
        } else {
            (Seq::empty(), st2)
        }
    }
}

/// The statements of a whole program read from `st`, and the final state.
pub open spec fn parse_program_spec(st: ParseState) -> (Seq<SpecStmt>, ParseState) {
    parse_sequence_spec(st, false)
}

/// The program that the parser reads from the source text `input`.
pub open spec fn program_of(input: Seq<char>) -> Seq<SpecStmt> {
    parse_program_spec(start_state(input, 0)).0
}

/// Moving one token forward keeps the state valid and never raises the measure; it
/// lowers it unless the current token is `EOF`.
pub proof fn lemma_advance(st: ParseState)
    requires
        valid(st),
    ensures
        valid(advance(st)),
        advance(st).input == st.input,
        measure(advance(st)) <= measure(st),
        !(st.cur is EOF) ==> measure(advance(st)) < measure(st),
        lookahead_consistent(st) ==> lookahead_consistent(advance(st)),
{
    lemma_next_token_progress(st.input, st.pos);
    if lookahead_consistent(st) {
        lemma_advance_consistent(st);
    }
}

/// Reading an expression keeps the state valid and never raises the measure.
pub proof fn lemma_expression_progress(st: ParseState)
    requires
        valid(st),
    ensures
        valid(parse_expression_spec(st).1),
        parse_expression_spec(st).1.input == st.input,
        measure(parse_expression_spec(st).1) <= measure(st),
        lookahead_consistent(st) ==> lookahead_consistent(parse_expression_spec(st).1),
{
    lemma_advance(st);
    lemma_advance(advance(st));
}

/// Reading a statement keeps the state valid; unless it reads nothing at all, it lowers
/// the measure.
pub proof fn lemma_statement_progress(st: ParseState)
    requires
        valid(st),
        !(st.cur is EOF),
    ensures
        valid(parse_statement_spec(st).1),
        parse_statement_spec(st).1.input == st.input,
        measure(parse_statement_spec(st).1) < measure(st) || (parse_statement_spec(st).0 is None
            && parse_statement_spec(st).1 == st),
        lookahead_consistent(st) ==> lookahead_consistent(parse_statement_spec(st).1),
    decreases measure(st), 2nat,
{
    lemma_advance(st);
    let st1 = advance(st);
    lemma_advance(st1);
    if is_keyword_token(st.cur, "let"@) {
        let st2 = advance(st1);
        lemma_advance(st2);
        lemma_expression_progress(advance(st2));
        lemma_advance(parse_expression_spec(advance(st2)).1);
    } else if is_keyword_token(st.cur, "return"@) {
        lemma_expression_progress(st1);
        lemma_advance(parse_expression_spec(st1).1);
    } else if is_keyword_token(st.cur, "print"@) {
        let has_parens = st1.cur == SpecToken::Symbol('(');
        let st2 = if has_parens {
            advance(st1)
        } else {
            st1
        };
        lemma_expression_progress(st2);
        let st3 = parse_expression_spec(st2).1;
        lemma_advance(st3);
        lemma_advance(advance(st3));
    } else if is_keyword_token(st.cur, "fn"@) {
        lemma_function_progress(st);
    } else if is_keyword_token(st.cur, "actor"@) {
        lemma_actor_progress(st);
    }
}

/// Reading a function keeps the state valid and lowers the measure.
pub proof fn lemma_function_progress(st: ParseState)
    requires
        valid(st),
        !(st.cur is EOF),
    ensures
        valid(parse_function_spec(st).1),
        parse_function_spec(st).1.input == st.input,
        measure(parse_function_spec(st).1) < measure(st),
        lookahead_consistent(st) ==> lookahead_consistent(parse_function_spec(st).1),
    decreases measure(st), 1nat,
{
    lemma_function_header(st);
    let sth = function_header_spec(st).1;
    if function_header_spec(st).0 is Some {
        lemma_sequence_progress(advance(sth), true);
        lemma_advance(parse_sequence_spec(advance(sth), true).1);
    }
}

/// Reading an actor keeps the state valid and lowers the measure.
pub proof fn lemma_actor_progress(st: ParseState)
    requires
        valid(st),
        !(st.cur is EOF),
    ensures
        valid(parse_actor_spec(st).1),
        parse_actor_spec(st).1.input == st.input,
        measure(parse_actor_spec(st).1) < measure(st),
        lookahead_consistent(st) ==> lookahead_consistent(parse_actor_spec(st).1),
    decreases measure(st), 1nat,
{
    let st1 = advance(st);
    let st2 = advance(st1);
    let st3 = advance(st2);
    lemma_advance(st);
    lemma_advance(st1);
    lemma_advance(st2);
    if st1.cur is Identifier && st2.cur == SpecToken::Symbol('{') {
        lemma_sequence_progress(st3, true);
        lemma_advance(parse_sequence_spec(st3, true).1);
    }
}

/// Reading a sequence of statements keeps the state valid, never raises the measure, and
/// stops only at its end.
pub proof fn lemma_sequence_progress(st: ParseState, in_braces: bool)
    requires
        valid(st),
    ensures
        valid(parse_sequence_spec(st, in_braces).1),
        parse_sequence_spec(st, in_braces).1.input == st.input,
        measure(parse_sequence_spec(st, in_braces).1) <= measure(st),
        at_sequence_end(parse_sequence_spec(st, in_braces).1, in_braces),
        lookahead_consistent(st) ==> lookahead_consistent(parse_sequence_spec(st, in_braces).1),
    decreases measure(st), 3nat,
{
    if !at_sequence_end(st, in_braces) {
        lemma_statement_progress(st);
        let (s, st1) = parse_statement_spec(st);
        if s is None {
            lemma_advance(st1);
        }
        let st2 = match s {
            Some(_) => st1,
            None => advance(st1),
        };
        lemma_sequence_progress(st2, in_braces);
    }
}

/// A name that a statement declares: a non-empty text that is not a reserved word.
pub open spec fn is_declared_name(n: Seq<char>) -> bool {
    n.len() >= 1 && !is_keyword(n)
}

/// An atom, or one of `+`, `-`, `*`, `/` between two atoms.
pub open spec fn expr_well_formed(e: SpecExpr) -> bool {
    match e {
        SpecExpr::BinaryOp { left, operator, right } => {
            &&& is_atom(*left)
            &&& is_atom(*right)
            &&& (operator == "+"@ || operator == "-"@ || operator == "*"@ || operator == "/"@)
        },
        _ => true,
    }
}

/// Every expression in the statement is well formed and every name it declares is a
/// declared name, down through nested bodies.
pub open spec fn stmt_well_formed(s: SpecStmt) -> bool
    decreases s,
{
    match s {
        SpecStmt::Let { name, value } => is_declared_name(name) && expr_well_formed(value),
        SpecStmt::Return { value } => expr_well_formed(value),
        SpecStmt::Print { value } => expr_well_formed(value),
        SpecStmt::Function { name, body } => is_declared_name(name) && forall|i: int|
            0 <= i < body.len() ==> stmt_well_formed(#[trigger] body[i]),
        SpecStmt::Actor { name, methods } => is_declared_name(name) && forall|i: int|
            0 <= i < methods.len() ==> stmt_well_formed(#[trigger] methods[i]),
    }
}

/// Both tokens of the state have the shapes that the lexer gives its tokens.
pub open spec fn tokens_well_formed(st: ParseState) -> bool {
    token_well_formed(st.cur) && token_well_formed(st.peek)
}

/// Tokens from the lexer keep their shapes as the parser moves forward.
proof fn lemma_advance_well_formed(st: ParseState)
    requires
        valid(st),
        tokens_well_formed(st),
    ensures
        tokens_well_formed(advance(st)),
{
    lemma_token_well_formed(st.input, st.pos);
}

/// Of the operators that the lexer reads, exactly `+`, `-`, `*` and `/` occur in
/// `+-*/`.
proof fn lemma_arith_operator(op: Seq<char>)
    requires
        token_well_formed(SpecToken::Operator(op)),
        is_arith_operator(op),
    ensures
        op == "+"@ || op == "-"@ || op == "*"@ || op == "/"@,
{
    reveal_strlit("+-*/");
    reveal_strlit("+");
    reveal_strlit("-");
    reveal_strlit("*");
    reveal_strlit("/");
    let hay = "+-*/"@;
    let i = choose|i: int| occurs_at(hay, op, i);
    assert(hay.subrange(i, i + op.len()) == op);
    assert(op[0] == hay[i]);
    if op.len() == 2 {
        assert(op[1] == hay[i + 1]);
    } else {
        assert(op =~= seq![hay[i]]);
    }
}

/// An expression read from well-formed tokens is well formed.
proof fn lemma_expression_well_formed(st: ParseState)
    requires
        valid(st),
        tokens_well_formed(st),
    ensures
        tokens_well_formed(parse_expression_spec(st).1),
        parse_expression_spec(st).0 matches Some(e) ==> expr_well_formed(e),
{
    lemma_advance(st);
    lemma_advance_well_formed(st);
    lemma_advance_well_formed(advance(st));
    if let SpecToken::Operator(op) = st.peek {
        if atom_of(st.cur) is Some && is_arith_operator(op) {
            lemma_arith_operator(op);
        }
    }
}

/// A statement read from well-formed tokens is well formed.
proof fn lemma_statement_well_formed(st: ParseState)
    requires
        valid(st),
        tokens_well_formed(st),
        !(st.cur is EOF),
    ensures
        tokens_well_formed(parse_statement_spec(st).1),
        parse_statement_spec(st).0 matches Some(s) ==> stmt_well_formed(s),
    decreases measure(st), 2nat,
{
    lemma_advance(st);
    lemma_advance_well_formed(st);
    let st1 = advance(st);
    lemma_advance(st1);
    lemma_advance_well_formed(st1);
    if is_keyword_token(st.cur, "let"@) {
        let st2 = advance(st1);
        lemma_advance(st2);
        lemma_advance_well_formed(st2);
        lemma_expression_progress(advance(st2));
        lemma_expression_well_formed(advance(st2));
        lemma_advance_well_formed(parse_expression_spec(advance(st2)).1);
    } else if is_keyword_token(st.cur, "return"@) {
        lemma_expression_progress(st1);
        lemma_expression_well_formed(st1);
        lemma_advance_well_formed(parse_expression_spec(st1).1);
    } else if is_keyword_token(st.cur, "print"@) {
        let has_parens = st1.cur == SpecToken::Symbol('(');
        let st2 = if has_parens {
            advance(st1)
        } else {
            st1
        };
        lemma_expression_progress(st2);
        lemma_expression_well_formed(st2);
        let st3 = parse_expression_spec(st2).1;
        lemma_advance(st3);
        lemma_advance_well_formed(st3);
        lemma_advance_well_formed(advance(st3));
    } else if is_keyword_token(st.cur, "fn"@) {
        lemma_function_well_formed(st);
    } else if is_keyword_token(st.cur, "actor"@) {
        lemma_actor_well_formed(st);
    }
}

/// A function read from well-formed tokens is well formed.
proof fn lemma_function_well_formed(st: ParseState)
    requires
        valid(st),
        tokens_well_formed(st),
        !(st.cur is EOF),
    ensures
        tokens_well_formed(parse_function_spec(st).1),
        parse_function_spec(st).0 matches Some(s) ==> stmt_well_formed(s),
    decreases measure(st), 1nat,
{
    lemma_function_header(st);
    let sth = function_header_spec(st).1;
    if function_header_spec(st).0 is Some {
        let st5 = advance(sth);
        lemma_sequence_well_formed(st5, true);
        lemma_sequence_progress(st5, true);
        lemma_advance_well_formed(parse_sequence_spec(st5, true).1);
    }
}

/// An actor read from well-formed tokens is well formed.
proof fn lemma_actor_well_formed(st: ParseState)
    requires
        valid(st),
        tokens_well_formed(st),
        !(st.cur is EOF),
    ensures
        tokens_well_formed(parse_actor_spec(st).1),
        parse_actor_spec(st).0 matches Some(s) ==> stmt_well_formed(s),
    decreases measure(st), 1nat,
{
    let st1 = advance(st);
    let st2 = advance(st1);
    let st3 = advance(st2);
    lemma_advance(st);
    lemma_advance(st1);
    lemma_advance(st2);
    lemma_advance_well_formed(st);
    lemma_advance_well_formed(st1);
    lemma_advance_well_formed(st2);
    if st1.cur is Identifier && st2.cur == SpecToken::Symbol('{') {
        lemma_sequence_well_formed(st3, true);
        lemma_sequence_progress(st3, true);
        lemma_advance_well_formed(parse_sequence_spec(st3, true).1);
    }
}

/// Statements read from well-formed tokens are all well formed.
proof fn lemma_sequence_well_formed(st: ParseState, in_braces: bool)
    requires
        valid(st),
        tokens_well_formed(st),
    ensures
        tokens_well_formed(parse_sequence_spec(st, in_braces).1),
        forall|i: int|
            0 <= i < parse_sequence_spec(st, in_braces).0.len() ==> stmt_well_formed(
                #[trigger] parse_sequence_spec(st, in_braces).0[i],
            ),
    decreases measure(st), 3nat,
{
    if !at_sequence_end(st, in_braces) {
        lemma_statement_progress(st);
        lemma_statement_well_formed(st);
        let (s, st1) = parse_statement_spec(st);
        if s is None {
            lemma_advance(st1);
            lemma_advance_well_formed(st1);
        }
        let st2 = match s {
            Some(_) => st1,
            None => advance(st1),
        };
        lemma_sequence_well_formed(st2, in_braces);
        let rest = parse_sequence_spec(st2, in_braces).0;
        if let Some(x) = s {
            assert forall|i: int| 0 <= i < rest.len() + 1 implies stmt_well_formed(
                #[trigger] (seq![x] + rest)[i],
            ) by {
                if i > 0 {
                    assert((seq![x] + rest)[i] == rest[i - 1]);
                }
            }
        }
    }
}

/// Every statement of a program read from source text is well formed: its expressions
/// are atoms or one of `+`, `-`, `*`, `/` between two atoms, and each name that it
/// declares (after `let`, `fn` or `actor`) is non-empty and not a reserved word.
pub proof fn lemma_program_well_formed(input: Seq<char>)
    ensures
        forall|i: int|
            0 <= i < program_of(input).len() ==> stmt_well_formed(#[trigger] program_of(input)[i]),
{
    lemma_next_token_progress(input, 0);
    lemma_next_token_progress(input, next_token_spec(input, 0).1);
    lemma_token_well_formed(input, 0);
    lemma_token_well_formed(input, next_token_spec(input, 0).1);
    lemma_sequence_well_formed(start_state(input, 0), false);
}

/// Parsing a program reads its source to the end: the parser stops with `EOF` as its
/// current token, and that `EOF` is final.
pub proof fn lemma_program_reads_to_end(input: Seq<char>)
    ensures
        parse_program_spec(start_state(input, 0)).1.cur is EOF,
        parse_program_spec(start_state(input, 0)).1.input == input,
{
    lemma_next_token_progress(input, 0);
    lemma_next_token_progress(input, next_token_spec(input, 0).1);
    lemma_sequence_progress(start_state(input, 0), false);
}

/// The lookahead agrees with the lexer: after an `EOF` the next token is `EOF`, and
/// after an `EOF` lookahead the lexer itself only gives `EOF` without moving.
pub open spec fn lookahead_consistent(st: ParseState) -> bool {
    &&& (st.cur is EOF ==> st.peek is EOF)
    &&& (st.peek is EOF ==> next_token_spec(st.input, st.pos) == (SpecToken::EOF, st.pos))
}

/// A freshly built parser's lookahead agrees with its lexer.
pub proof fn lemma_start_state_consistent(input: Seq<char>, pos: int)
    ensures
        lookahead_consistent(start_state(input, pos)),
{
    let (t1, p1) = next_token_spec(input, pos);
    if t1 is EOF {
        lemma_eof_is_final(input, pos);
    }
    let (t2, p2) = next_token_spec(input, p1);
    if t2 is EOF {
        lemma_eof_is_final(input, p1);
    }
}

/// Moving forward keeps the lookahead in agreement with the lexer.
pub proof fn lemma_advance_consistent(st: ParseState)
    requires
        lookahead_consistent(st),
    ensures
        lookahead_consistent(advance(st)),
{
    let (t, p) = next_token_spec(st.input, st.pos);
    if t is EOF {
        lemma_eof_is_final(st.input, st.pos);
    }
}

/// An empty text has only `EOF`, at the start.
proof fn lemma_empty_text_eof(input: Seq<char>, pos: int)
    requires
        input.len() == 0,
        pos == 0,
    ensures
        next_token_spec(input, pos) == (SpecToken::EOF, pos),
{
    lemma_token_start_bounds(input, pos);
}

/// After a program is parsed both the current token and the lookahead are `EOF`, and
/// parsing again reads nothing: the second program is empty and the state is unchanged.
pub proof fn lemma_parse_program_twice(st: ParseState)
    requires
        valid(st),
        lookahead_consistent(st),
    ensures
        parse_program_spec(st).1.cur is EOF,
        parse_program_spec(st).1.peek is EOF,
        parse_program_spec(parse_program_spec(st).1) == (
            Seq::<SpecStmt>::empty(),
            parse_program_spec(st).1,
        ),
{
    lemma_sequence_progress(st, false);
}

/// A parser built on a lexer at the start of `input` satisfies the conditions of
/// `lemma_parse_program_twice`.
pub proof fn lemma_start_state_valid(input: Seq<char>)
    ensures
        valid(start_state(input, 0)),
        lookahead_consistent(start_state(input, 0)),
{
    lemma_next_token_progress(input, 0);
    lemma_next_token_progress(input, next_token_spec(input, 0).1);
    lemma_start_state_consistent(input, 0);
}

/// The expression that an atom token stands for: an identifier, a number or a string
/// literal, with its text.
pub open spec fn token_denotes(t: SpecToken, e: SpecExpr) -> bool {
    match t {
        SpecToken::Identifier(x) => e == SpecExpr::Identifier(x),
        SpecToken::Number(x) => e == SpecExpr::Number(x),
        SpecToken::StringLiteral(x) => e == SpecExpr::StringLit(x),
        _ => false,
    }
}

/// One of the four arithmetic operators `+`, `-`, `*`, `/`.
pub open spec fn is_one_of_four_operators(op: Seq<char>) -> bool {
    op == seq!['+'] || op == seq!['-'] || op == seq!['*'] || op == seq!['/']
}

/// Each of `+`, `-`, `*` and `/` joins two atoms: an atom, one of these operators and an
/// atom are read as that binary operation, and the right atom's token is left current.
pub proof fn lemma_binary_expression_complete(
    st: ParseState,
    left: SpecExpr,
    op: Seq<char>,
    right: SpecExpr,
)
    requires
        token_denotes(st.cur, left),
        st.peek == SpecToken::Operator(op),
        is_one_of_four_operators(op),
        token_denotes(advance(advance(st)).cur, right),
    ensures
        parse_expression_spec(st) == (
            Some(
                SpecExpr::BinaryOp { left: Box::new(left), operator: op, right: Box::new(right) },
            ),
            advance(advance(st)),
        ),
{
    reveal_strlit("+-*/");
    let hay = "+-*/"@;
    if op == seq!['+'] {
        assert(hay.subrange(0, 1) =~= op);
        assert(occurs_at(hay, op, 0));
    } else if op == seq!['-'] {
        assert(hay.subrange(1, 2) =~= op);
        assert(occurs_at(hay, op, 1));
    } else if op == seq!['*'] {
        assert(hay.subrange(2, 3) =~= op);
        assert(occurs_at(hay, op, 2));
    } else {
        assert(hay.subrange(3, 4) =~= op);
        assert(occurs_at(hay, op, 3));
    }
}

/// An atom not followed by one of `+`, `-`, `*`, `/` (among the tokens that the lexer
/// makes) is read alone, and stays the current token.
pub proof fn lemma_atom_expression_alone(st: ParseState, left: SpecExpr)
    requires
        token_denotes(st.cur, left),
        token_well_formed(st.peek),
        !(st.peek matches SpecToken::Operator(op) && is_one_of_four_operators(op)),
    ensures
        parse_expression_spec(st) == (Some(left), st),
{
    if let SpecToken::Operator(op) = st.peek {
        if is_arith_operator(op) {
            lemma_arith_operator(op);
            reveal_strlit("+");
            reveal_strlit("-");
            reveal_strlit("*");
            reveal_strlit("/");
            assert("+"@ =~= seq!['+']);
            assert("-"@ =~= seq!['-']);
            assert("*"@ =~= seq!['*']);
            assert("/"@ =~= seq!['/']);
            assert(is_one_of_four_operators(op));
        }
    }
}

/// A `print` statement prints exactly the expression that follows `print` (or the `(`
/// after it): with or without parentheses the value is the expression read there.
pub proof fn lemma_print_value_is_expression(st: ParseState)
    ensures
        ({
            let st1 = advance(st);
            let st2 = if st1.cur == SpecToken::Symbol('(') {
                advance(st1)
            } else {
                st1
            };
            &&& parse_print_spec(st).0 is Some <==> parse_expression_spec(st2).0 is Some
            &&& parse_print_spec(st).0 is Some ==> parse_print_spec(st).0 == Some(
                SpecStmt::Print { value: parse_expression_spec(st2).0->0 },
            )
        }),
{
}

/// A function statement consumes its body's closing `}`: when it succeeds, the body's
/// statements end at a `}` (or at `EOF` when the body is never closed), and the state it
/// leaves is one step past that token.
pub proof fn lemma_function_consumes_closing_brace(st: ParseState)
    requires
        valid(st),
        is_keyword_token(st.cur, "fn"@),
    ensures
        parse_function_spec(st).0 is Some ==> {
            let body_start = advance(function_header_spec(st).1);
            let body_end = parse_sequence_spec(body_start, true).1;
            &&& body_end.cur == SpecToken::Symbol('}') || body_end.cur is EOF
            &&& parse_function_spec(st).1 == advance(body_end)
            &&& parse_function_spec(st).0 == Some(
                SpecStmt::Function {
                    name: function_header_spec(st).0->0,
                    body: parse_sequence_spec(body_start, true).0,
                },
            )
        },
{
    lemma_function_header(st);
    if function_header_spec(st).0 is Some {
        lemma_sequence_progress(advance(function_header_spec(st).1), true);
    }
}

/// Inside braces as at the top level, a token that starts no statement is skipped alone:
/// reading the sequence from it is reading the sequence from the next token.
pub proof fn lemma_skip_one_token(st: ParseState, in_braces: bool)
    requires
        valid(st),
        !at_sequence_end(st, in_braces),
        parse_statement_spec(st) == (None::<SpecStmt>, st),
    ensures
        parse_sequence_spec(st, in_braces) == parse_sequence_spec(advance(st), in_braces),
{
    lemma_advance(st);
}

/// The model of an optional expression.
pub open spec fn opt_expr_view(e: Option<Expr>) -> Option<SpecExpr> {
    match e {
        Some(x) => Some(x@),
        None => None,
    }
}

/// The model of an optional statement.
pub open spec fn opt_stmt_view(s: Option<Stmt>) -> Option<SpecStmt> {
    match s {
        Some(x) => Some(x@),
        None => None,
    }
}

/// A parser over the tokens of a lexer, with the current token and the one after it.
pub struct Parser {
    lexer: Lexer,
    current_token: Token,
    peek_token: Token,
}

impl View for Parser {
    type V = ParseState;

    closed spec fn view(&self) -> ParseState {
        ParseState {
            input: self.lexer.text(),
            pos: self.lexer.pos(),
            cur: self.current_token@,
            peek: self.peek_token@,
        }
    }
}

impl Parser {
    /// The lookahead agrees with the lexer: the tokens after an `EOF` are `EOF`.
    #[verifier::type_invariant]
    spec fn inv(&self) -> bool {
        lookahead_consistent(self@)
    }

    /// A parser on `lexer`; the first two tokens are read at once.
    pub fn new(lexer: Lexer) -> (p: Parser)
        ensures
            p@ == start_state(lexer.text(), lexer.pos()),
            lookahead_consistent(p@),
    {
        proof {
            lemma_start_state_consistent(lexer.text(), lexer.pos());
        }
        let mut lexer = lexer;
        let current_token = lexer.next_token();
        let peek_token = lexer.next_token();
        Parser { lexer, current_token, peek_token }
    }

    /// Moves one token forward: the token after the current one becomes current, and the
    /// lexer reads a new one.
    pub fn next_token(&mut self)
        ensures
            final(self)@ == advance(old(self)@),
            lookahead_consistent(final(self)@),
    {
        proof {
            use_type_invariant(&*self);
            use_type_invariant(&self.lexer);
            reveal_strlit("");
        }
        let ghost st = self@;
        // The lexer is taken out while it reads, leaving an empty one in its place, whose
        // only token is `EOF`; the parser's invariant holds throughout.
        let mut lexer = Lexer::new("");
        proof {
            lemma_empty_text_eof(lexer.text(), lexer.pos());
        }
        std::mem::swap(&mut self.lexer, &mut lexer);
        let mut t = lexer.next_token();
        proof {
            lemma_advance_consistent(st);
            if t@ is EOF {
                lemma_eof_is_final(st.input, st.pos);
            }
        }
        std::mem::swap(&mut self.peek_token, &mut t);
        self.current_token = t;
        std::mem::swap(&mut self.lexer, &mut lexer);
    }

    /// Whether the current token is `EOF`.
    fn current_is_eof(&self) -> (r: bool)
        ensures
            r == (self@.cur is EOF),
    {
        match &self.current_token {
            Token::EOF => true,
            _ => false,
        }
    }

    /// Whether the current token is the symbol `c`.
    fn current_is_symbol(&self, c: char) -> (r: bool)
        ensures
            r == (self@.cur == SpecToken::Symbol(c)),
    {
        match &self.current_token {
            Token::Symbol(d) => *d == c,
            _ => false,
        }
    }

    /// Whether the current token is the operator `op`.
    fn current_is_operator(&self, op: &str) -> (r: bool)
        ensures
            r == (self@.cur == SpecToken::Operator(op@)),
    {
        match &self.current_token {
            Token::Operator(o) => text_is(o.as_str(), op),
            _ => false,
        }
    }

    /// Reads a whole program: statements until `EOF`.
    pub fn parse_program(&mut self) -> (prog: Program)
        ensures
            (prog@, final(self)@) == parse_program_spec(old(self)@),
            final(self)@.cur is EOF,
            final(self)@.peek is EOF,
            parse_program_spec(final(self)@) == (Seq::<SpecStmt>::empty(), final(self)@),
    {
        proof {
            use_type_invariant(&self.lexer);
            lemma_sequence_progress(self@, false);
        }
        let ghost st0 = self@;
        let mut program = Program { statements: Vec::new() };
        while !self.current_is_eof()
            invariant
                valid(self@),
                self@.input == st0.input,
                parse_sequence_spec(st0, false).0 == stmts_view(program.statements@)
                    + parse_sequence_spec(self@, false).0,
                parse_sequence_spec(st0, false).1 == parse_sequence_spec(self@, false).1,
            decreases measure(self@),
        {
            let ghost st = self@;
            let ghost prev = program.statements@;
            proof {
                lemma_statement_progress(st);
            }
            if let Some(stmt) = self.parse_statement() {
                proof {
                    lemma_stmts_view_push(prev, stmt);
                }
                program.statements.push(stmt);
                assert(stmts_view(prev) + parse_sequence_spec(st, false).0 =~= stmts_view(
                    program.statements@,
                ) + parse_sequence_spec(self@, false).0);
            } else {
                proof {
                    lemma_advance(self@);
                }
                self.next_token();
            }
        }
        assert(stmts_view(program.statements@) =~= stmts_view(program.statements@)
            + parse_sequence_spec(self@, false).0);
        proof {
            use_type_invariant(&*self);
        }
        program
    }

    /// Statements until the closing `}` of a block (or `EOF`); the `}` stays current.
    fn parse_block(&mut self) -> (body: Vec<Stmt>)
        ensures
            (stmts_view(body@), final(self)@) == parse_sequence_spec(old(self)@, true),
        decreases measure(old(self)@), 3nat,
    {
        proof {
            use_type_invariant(&self.lexer);
            lemma_sequence_progress(self@, true);
        }
        let ghost st0 = self@;
        let mut body: Vec<Stmt> = Vec::new();
        while !self.current_is_symbol('}') && !self.current_is_eof()
            invariant
                st0 == old(self)@,
                valid(self@),
                self@.input == st0.input,
                measure(self@) <= measure(st0),
                parse_sequence_spec(st0, true).0 == stmts_view(body@) + parse_sequence_spec(
                    self@,
                    true,
                ).0,
                parse_sequence_spec(st0, true).1 == parse_sequence_spec(self@, true).1,
            decreases measure(self@),
        {
            let ghost st = self@;
            let ghost prev = body@;
            proof {
                lemma_statement_progress(st);
            }
            if let Some(stmt) = self.parse_statement() {
                proof {
                    lemma_stmts_view_push(prev, stmt);
                }
                body.push(stmt);
                assert(stmts_view(prev) + parse_sequence_spec(st, true).0 =~= stmts_view(body@)
                    + parse_sequence_spec(self@, true).0);
            } else {
                proof {
                    lemma_advance(self@);
                }
                self.next_token();
            }
        }
        assert(stmts_view(body@) =~= stmts_view(body@) + parse_sequence_spec(self@, true).0);
        body
    }

    /// Reads a statement starting at the current token, if it starts one.
    fn parse_statement(&mut self) -> (r: Option<Stmt>)
        ensures
            (opt_stmt_view(r), final(self)@) == parse_statement_spec(old(self)@),
        decreases measure(old(self)@), 2nat,
    {
        let which: u8 = match &self.current_token {
            Token::Keyword(kw) => {
                if text_is(kw.as_str(), "let") {
                    1
                } else if text_is(kw.as_str(), "return") {
                    2
                } else if text_is(kw.as_str(), "print") {
                    3
                } else if text_is(kw.as_str(), "fn") {
                    4
                } else if text_is(kw.as_str(), "actor") {
                    5
                } else {
                    0
                }
            },
            _ => 0,
        };
        if which == 1 {
            self.parse_let_statement()
        } else if which == 2 {
            self.parse_return_statement()
        } else if which == 3 {
            self.parse_print_statement()
        } else if which == 4 {
            self.parse_function_statement()
        } else if which == 5 {
            self.parse_actor_statement()
        } else {
            None
        }
    }

    /// `print <expression>` or `print(<expression>)`.
    fn parse_print_statement(&mut self) -> (r: Option<Stmt>)
        ensures
            (opt_stmt_view(r), final(self)@) == parse_print_spec(old(self)@),
    {
        self.next_token();
        let has_parens = self.current_is_symbol('(');
        if has_parens {
            self.next_token();
        }
        let value = match self.parse_expression() {
            Some(e) => e,
            None => return None,
        };
        self.next_token();
        if has_parens && self.current_is_symbol(')') {
            self.next_token();
        }
        Some(Stmt::Print { value })
    }

    /// `actor <identifier> { <statements> }`.
    fn parse_actor_statement(&mut self) -> (r: Option<Stmt>)
        requires
            is_keyword_token(old(self)@.cur, "actor"@),
        ensures
            (opt_stmt_view(r), final(self)@) == parse_actor_spec(old(self)@),
        decreases measure(old(self)@), 1nat,
    {
        proof {
            use_type_invariant(&self.lexer);
            lemma_advance(self@);
        }
        let ghost st = self@;
        self.next_token();
        let name = match &self.current_token {
            Token::Identifier(ident) => ident.clone(),
            _ => return None,
        };
        proof {
            use_type_invariant(&self.lexer);
            lemma_advance(self@);
        }
        self.next_token();
        if !self.current_is_symbol('{') {
            return None;
        }
        proof {
            use_type_invariant(&self.lexer);
            lemma_advance(self@);
        }
        self.next_token();
        let methods = self.parse_block();
        self.next_token();
        Some(Stmt::Actor { name, methods })
    }

    /// `let <identifier> = <expression>`.
    fn parse_let_statement(&mut self) -> (r: Option<Stmt>)
        ensures
            (opt_stmt_view(r), final(self)@) == parse_let_spec(old(self)@),
    {
        self.next_token();
        let name = match &self.current_token {
            Token::Identifier(ident) => ident.clone(),
            _ => return None,
        };
        self.next_token();
        if !self.current_is_operator("=") {
            return None;
        }
        self.next_token();
        let value = match self.parse_expression() {
            Some(e) => e,
            None => return None,
        };
        self.next_token();
        Some(Stmt::Let { name, value })
    }

    /// `return <expression>`.
    fn parse_return_statement(&mut self) -> (r: Option<Stmt>)
        ensures
            (opt_stmt_view(r), final(self)@) == parse_return_spec(old(self)@),
    {
        self.next_token();
        let value = match self.parse_expression() {
            Some(e) => e,
            None => return None,
        };
        self.next_token();
        Some(Stmt::Return { value })
    }

    /// Whether the current token ends a parameter list or a return type.
    fn current_is_header_stop(&self) -> (r: bool)
        ensures
            r == is_header_stop(self@.cur),
    {
        match &self.current_token {
            Token::EOF => true,
            Token::Symbol(c) => *c == ')' || *c == '{' || *c == '}',
            _ => false,
        }
    }

    /// Moves past the tokens of a parameter list or a return type.
    fn skip_header(&mut self)
        ensures
            final(self)@ == skip_header_spec(old(self)@),
    {
        proof {
            use_type_invariant(&self.lexer);
        }
        let ghost st0 = self@;
        while !self.current_is_header_stop()
            invariant
                valid(self@),
                skip_header_spec(self@) == skip_header_spec(st0),
            decreases measure(self@),
        {
            proof {
                lemma_advance(self@);
            }
            self.next_token();
        }
    }

    /// Reads a function header up to the `{` that opens the body, and gives the name.
    fn parse_function_header(&mut self) -> (r: Option<String>)
        ensures
            (match r {
                Some(n) => Some(n@),
                None => None,
            }, final(self)@) == function_header_spec(old(self)@),
    {
        proof {
            use_type_invariant(&self.lexer);
        }
        self.next_token();
        let name = match &self.current_token {
            Token::Identifier(ident) => ident.clone(),
            _ => return None,
        };
        self.next_token();
        if !self.current_is_symbol('(') {
            return None;
        }
        self.next_token();
        self.skip_header();
        if !self.current_is_symbol(')') {
            return None;
        }
        self.next_token();
        if self.current_is_operator("->") {
            self.next_token();
            self.skip_header();
        }
        if !self.current_is_symbol('{') {
            return None;
        }
        Some(name)
    }

    /// `fn <identifier>(<parameters>) -> <return type> { <statements> }`.
    fn parse_function_statement(&mut self) -> (r: Option<Stmt>)
        requires
            is_keyword_token(old(self)@.cur, "fn"@),
        ensures
            (opt_stmt_view(r), final(self)@) == parse_function_spec(old(self)@),
        decreases measure(old(self)@), 1nat,
    {
        proof {
            use_type_invariant(&self.lexer);
            lemma_function_header(self@);
        }
        let name = match self.parse_function_header() {
            Some(n) => n,
            None => return None,
        };
        self.next_token();
        let body = self.parse_block();
        self.next_token();
        Some(Stmt::Function { name, body })
    }

    /// Reads an expression starting at the current token; on success the current token is
    /// its last token.
    fn parse_expression(&mut self) -> (r: Option<Expr>)
        ensures
            (opt_expr_view(r), final(self)@) == parse_expression_spec(old(self)@),
    {
        let ghost st = self@;
        let left = match &self.current_token {
            Token::Number(num) => Expr::Number(num.clone()),
            Token::StringLiteral(s) => Expr::StringLit(s.clone()),
            Token::Identifier(id) => Expr::Identifier(id.clone()),
            _ => return None,
        };
        let op_text: Option<String> = match &self.peek_token {
            Token::Operator(op) => if contains_text("+-*/", op.as_str()) {
                Some(op.clone())
            } else {
                None
            },
            _ => None,
        };
        assert(atom_of(st.cur) == Some(left@));
        if let Some(operator) = op_text {
            assert(st.peek == SpecToken::Operator(operator@));
            self.next_token();
            self.next_token();
            let right = match &self.current_token {
                Token::Number(num) => Expr::Number(num.clone()),
                Token::StringLiteral(s) => Expr::StringLit(s.clone()),
                Token::Identifier(id) => Expr::Identifier(id.clone()),
                _ => return None,
            };
            assert(atom_of(self@.cur) == Some(right@));
            return Some(Expr::BinaryOp { left: Box::new(left), operator, right: Box::new(right) });
        }
        Some(left)
    }
}

} // verus!
