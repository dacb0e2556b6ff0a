//! Run-time state of a program: variable bindings and printed output.
//!
//! The environment is generic in the values it binds; the values themselves (numbers,
//! strings, arrays, ...) are defined by the interpreter that uses it.
use vstd::prelude::*;
use vstd::hash_map::StringHashMap;
use crate::ast::{Expr, Program};

verus! {

/// Variable bindings by name, and the lines printed so far.
#[verifier::reject_recursive_types(V)]
pub struct Environment<V> {
    pub store: StringHashMap<V>,
    pub output: Vec<String>,
}

impl<V: Clone> Environment<V> {
    /// An environment with no bindings and no output.
    pub fn new() -> (env: Self)
        ensures
            env.store@ == Map::<Seq<char>, V>::empty(),
            env.output@ == Seq::<String>::empty(),
    {
        Environment { store: StringHashMap::new(), output: Vec::new() }
    }

    /// Binds `name` to `val`, replacing any earlier binding of `name`; the output is kept.
    pub fn set(&mut self, name: String, val: V)
        ensures
            final(self).store@ == old(self).store@.insert(name@, val),
            final(self).output == old(self).output,
    {
        self.store.insert(name, val);
    }

    /// A copy of the value bound to `name`, or `None` when `name` is unbound.
    pub fn get(&self, name: &str) -> (r: Option<V>)
        ensures
            r is Some <==> self.store@.contains_key(name@),
            r matches Some(v) ==> cloned(self.store@[name@], v),
    {
        self.store.get(name).cloned()
    }
}

/// Reading a name after binding it gives the value bound; binding a name leaves every
/// other name's binding as it was.
pub proof fn lemma_read_after_write<V>(
    bindings: Map<Seq<char>, V>,
    name: Seq<char>,
    val: V,
    other: Seq<char>,
)
    ensures
        bindings.insert(name, val).contains_key(name),
        bindings.insert(name, val)[name] == val,
        other != name ==> (bindings.insert(name, val).contains_key(other) <==> bindings.contains_key(
            other,
        )),
        other != name && bindings.contains_key(other) ==> bindings.insert(name, val)[other]
            == bindings[other],
{
}

/// Checks a program before it runs. Every program passes: no static check rejects one.
pub fn check_program(program: &Program) -> (r: Result<(), String>)
    ensures
        r is Ok,
{
    Ok(())
}

/// Simplifies an expression before it runs. No rewriting is done: the expression is
/// returned as it is.
pub fn optimize_expr(expr: Expr) -> (r: Expr)
    ensures
        r == expr,
{
    expr
}

/// The texts of `lines` joined with `sep` between consecutive ones.
pub open spec fn join_lines(lines: Seq<Seq<char>>, sep: Seq<char>) -> Seq<char>
    decreases lines.len(),
{
    if lines.len() == 0 {
        Seq::empty()
    } else if lines.len() == 1 {
        lines[0]
    } else {
        join_lines(lines.drop_last(), sep) + sep + lines.last()
    }
}

/// The texts of a vector of strings.
pub open spec fn texts(lines: Seq<String>) -> Seq<Seq<char>> {
    lines.map_values(|s: String| s@)
}

/// The printed lines, one per line, or `when_empty` when that text would be empty.
pub fn render_output(lines: &Vec<String>, when_empty: &str) -> (r: String)
    ensures
        join_lines(texts(lines@), "\n"@).len() == 0 ==> r@ == when_empty@,
        join_lines(texts(lines@), "\n"@).len() != 0 ==> r@ == join_lines(texts(lines@), "\n"@),
{
    let mut res = String::new();
    let n = lines.len();
    let mut i: usize = 0;
    while i < n
        invariant
            n == lines@.len(),
            i <= n,
            res@ == join_lines(texts(lines@).take(i as int), "\n"@),
        decreases n - i,
    {
        let ghost before = texts(lines@).take(i as int);
        if i != 0 {
            res.append("\n");
        }
        res.append(lines[i].as_str());
        proof {
            let after = texts(lines@).take(i + 1);
            assert(after.drop_last() =~= before);
            assert(after.last() == lines@[i as int]@);
            if i == 0 {
                assert(before.len() == 0);
                assert(res@ =~= after[0]);
            }
        }
        i = i + 1;
    }
    assert(texts(lines@).take(n as int) =~= texts(lines@));
    if res.unicode_len() == 0 {
        String::from_str(when_empty)
    } else {
        res
    }
}

} // verus!
