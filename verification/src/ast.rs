//! Syntax trees of Aether programs, and their mathematical models.
use vstd::prelude::*;

verus! {

/// An expression: an atom, or one binary operation on two atoms.
#[derive(Debug, PartialEq)]
pub enum Expr {
    Identifier(String),
    Number(String),
    StringLit(String),
    BinaryOp { left: Box<Expr>, operator: String, right: Box<Expr> },
}

/// A statement.
#[derive(Debug, PartialEq)]
pub enum Stmt {
    Let { name: String, value: Expr },
    Return { value: Expr },
    Print { value: Expr },
    Function { name: String, body: Vec<Stmt> },
    Actor { name: String, methods: Vec<Stmt> },
}

/// A whole program: its top-level statements in source order.
#[derive(Debug, PartialEq)]
pub struct Program {
    pub statements: Vec<Stmt>,
}

/// The model of an [`Expr`]: texts are character sequences.
pub enum SpecExpr {
    Identifier(Seq<char>),
    Number(Seq<char>),
    StringLit(Seq<char>),
    BinaryOp { left: Box<SpecExpr>, operator: Seq<char>, right: Box<SpecExpr> },
}

/// The model of a [`Stmt`].
pub enum SpecStmt {
    Let { name: Seq<char>, value: SpecExpr },
    Return { value: SpecExpr },
    Print { value: SpecExpr },
    Function { name: Seq<char>, body: Seq<SpecStmt> },
    Actor { name: Seq<char>, methods: Seq<SpecStmt> },
}

impl View for Expr {
    type V = SpecExpr;

    open spec fn view(&self) -> SpecExpr
        decreases self,
    {
        match self {
            Expr::Identifier(s) => SpecExpr::Identifier(s@),
            Expr::Number(s) => SpecExpr::Number(s@),
            Expr::StringLit(s) => SpecExpr::StringLit(s@),
            Expr::BinaryOp { left, operator, right } => SpecExpr::BinaryOp {
                left: Box::new((**left).view()),
                operator: operator@,
                right: Box::new((**right).view()),
            },
        }
    }
}

impl View for Stmt {
    type V = SpecStmt;

    open spec fn view(&self) -> SpecStmt
        decreases self,
    {
        match self {
            Stmt::Let { name, value } => SpecStmt::Let { name: name@, value: value@ },
            Stmt::Return { value } => SpecStmt::Return { value: value@ },
            Stmt::Print { value } => SpecStmt::Print { value: value@ },
            Stmt::Function { name, body } => SpecStmt::Function {
                name: name@,
                body: stmts_view(body@),
            },
            Stmt::Actor { name, methods } => SpecStmt::Actor {
                name: name@,
                methods: stmts_view(methods@),
            },
        }
    }
}

/// The models of a sequence of statements, in order.
pub open spec fn stmts_view(v: Seq<Stmt>) -> Seq<SpecStmt>
    decreases v,
{
    if v.len() == 0 {
        Seq::empty()
    } else {
        seq![v[0].view()] + stmts_view(v.drop_first())
    }
}

impl View for Program {
    type V = Seq<SpecStmt>;

    open spec fn view(&self) -> Seq<SpecStmt> {
        stmts_view(self.statements@)
    }
}

/// `stmts_view` keeps the length and maps each statement to its model.
pub proof fn lemma_stmts_view(v: Seq<Stmt>)
    ensures
        stmts_view(v).len() == v.len(),
        forall|i: int| 0 <= i < v.len() ==> #[trigger] stmts_view(v)[i] == v[i]@,
    decreases v.len(),
{
    if v.len() > 0 {
        lemma_stmts_view(v.drop_first());
        let rest = stmts_view(v.drop_first());
        assert(stmts_view(v) == seq![v[0]@] + rest);
        assert forall|i: int| 0 <= i < v.len() implies #[trigger] stmts_view(v)[i] == v[i]@ by {
            if i > 0 {
                assert(v.drop_first()[i - 1] == v[i]);
                assert((seq![v[0]@] + rest)[i] == rest[i - 1]);
            }
        }
    }
}

/// Appending a statement appends its model.
pub proof fn lemma_stmts_view_push(v: Seq<Stmt>, s: Stmt)
    ensures
        stmts_view(v.push(s)) == stmts_view(v).push(s@),
{
    lemma_stmts_view(v);
    lemma_stmts_view(v.push(s));
    assert(stmts_view(v.push(s)) =~= stmts_view(v).push(s@));
}

/// An atom: an identifier, a number or a string literal.
pub open spec fn is_atom(e: SpecExpr) -> bool {
    !(e is BinaryOp)
}

} // verus!
