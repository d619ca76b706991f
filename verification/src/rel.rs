//! Splits a comparison statement into two linear expressions and a
//! relation, producing a symbolic formula plus its free variables.
//!
//! Operator detection uses a fixed priority list: each operator is tested
//! in order, and the first operator in the list that occurs anywhere in
//! the string wins, split at that operator's own first occurrence.  This
//! is deliberately not a leftmost scan across all operators combined.

use vstd::prelude::*;
use crate::linexpr::{assoc_has, spec_parse_linear, parse_linear_expr_int};
use crate::term::{Term, rel_term_ok};

verus! {

/// The pattern `p` occurs in `s` at position `i`.
pub open spec fn occurs_at(s: Seq<char>, p: Seq<char>, i: int) -> bool {
    0 <= i && i + p.len() <= s.len() && s.subrange(i, i + p.len()) == p
}

/// The first occurrence of `p` in `s` at or after position `i`.
pub open spec fn spec_find(s: Seq<char>, p: Seq<char>, i: int) -> Option<int>
    decreases s.len() - i,
{
    if i < 0 || p.len() < 1 || i + p.len() > s.len() {
        None
    } else if occurs_at(s, p, i) {
        Some(i)
    } else {
        spec_find(s, p, i + 1)
    }
}

/// Decides whether `p` occurs in `s` exactly at `i`.
fn match_at(s: &str, p: &Vec<char>, i: usize) -> (b: bool)
    requires
        i + p@.len() <= s@.len(),
    ensures
        b == occurs_at(s@, p@, i as int),
{
    let n = s.unicode_len();
    let m = p.len();
    let mut j: usize = 0;
    while j < m
        invariant
            j <= m == p@.len(),
            i + m <= n == s@.len(),
            forall|t: int| 0 <= t < j ==> s@[i + t] == p@[t],
        decreases m - j,
    {
        if s.get_char(i + j) != p[j] {
            proof {
                if occurs_at(s@, p@, i as int) {
                    assert(s@.subrange(i as int, i + p@.len())[j as int] == p@[j as int]);
                }
            }
            return false;
        }
        j = j + 1;
    }
    proof {
        assert(s@.subrange(i as int, i + p@.len()) =~= p@);
    }
    true
}

/// Finds the first occurrence of the character pattern `p` in `s`.
pub fn find_chars(s: &str, p: &Vec<char>) -> (r: Option<usize>)
    requires
        1 <= p@.len(),
    ensures
        (match r {
            Some(i) => spec_find(s@, p@, 0) == Some(i as int) && i + p@.len() <= s@.len(),
            None => spec_find(s@, p@, 0) is None,
        }),
{
    let n = s.unicode_len();
    let m = p.len();
    if m > n {
        return None;
    }
    let mut i: usize = 0;
    while i <= n - m
        invariant
            1 <= m == p@.len(),
            n == s@.len(),
            m <= n,
            i <= n - m + 1,
            spec_find(s@, p@, 0) == spec_find(s@, p@, i as int),
        decreases n - i,
    {
        if match_at(s, p, i) {
            return Some(i);
        }
        i = i + 1;
    }
    None
}

/// The operator priority list: `<=`, the one-character less-or-equal
/// glyph, `>=`, the one-character greater-or-equal glyph, `<`, `>`, `=`.
pub open spec fn op_seq(k: int) -> Seq<char> {
    if k == 0 {
        seq!['<', '=']
    } else if k == 1 {
        seq!['\u{2264}']
    } else if k == 2 {
        seq!['>', '=']
    } else if k == 3 {
        seq!['\u{2265}']
    } else if k == 4 {
        seq!['<']
    } else if k == 5 {
        seq!['>']
    } else {
        seq!['=']
    }
}

/// The first operator of the priority list, from index `k` on, that
/// occurs anywhere in `s`, with its own first occurrence position.
pub open spec fn spec_find_op(s: Seq<char>, k: int) -> Option<(int, int)>
    decreases 7 - k,
{
    if k < 0 || k >= 7 {
        None
    } else {
        match spec_find(s, op_seq(k), 0) {
            Some(i) => Some((k, i)),
            None => spec_find_op(s, k + 1),
        }
    }
}

/// Selects the splitting operator of a comparison statement: the first
/// operator in the fixed priority list that occurs anywhere in `s`, at
/// that operator's own first occurrence position — not the leftmost
/// operator occurrence overall.
pub fn find_rel_op(s: &str) -> (r: Option<(usize, usize)>)
    ensures
        (match r {
            Some(ki) => ki.0 < 7 && spec_find_op(s@, 0) == Some((ki.0 as int, ki.1 as int)) && ki.1
                + op_seq(ki.0 as int).len() <= s@.len(),
            None => spec_find_op(s@, 0) is None,
        }),
{
    let p0: Vec<char> = vec!['<', '='];
    let p1: Vec<char> = vec!['\u{2264}'];
    let p2: Vec<char> = vec!['>', '='];
    let p3: Vec<char> = vec!['\u{2265}'];
    let p4: Vec<char> = vec!['<'];
    let p5: Vec<char> = vec!['>'];
    let p6: Vec<char> = vec!['='];
    proof {
        assert(p0@ =~= op_seq(0));
        assert(p1@ =~= op_seq(1));
        assert(p2@ =~= op_seq(2));
        assert(p3@ =~= op_seq(3));
        assert(p4@ =~= op_seq(4));
        assert(p5@ =~= op_seq(5));
        assert(p6@ =~= op_seq(6));
    }
    if let Some(i) = find_chars(s, &p0) {
        return Some((0, i));
    }
    proof {
        assert(spec_find_op(s@, 0) == spec_find_op(s@, 1));
    }
    if let Some(i) = find_chars(s, &p1) {
        return Some((1, i));
    }
    proof {
        assert(spec_find_op(s@, 1) == spec_find_op(s@, 2));
    }
    if let Some(i) = find_chars(s, &p2) {
        return Some((2, i));
    }
    proof {
        assert(spec_find_op(s@, 2) == spec_find_op(s@, 3));
    }
    if let Some(i) = find_chars(s, &p3) {
        return Some((3, i));
    }
    proof {
        assert(spec_find_op(s@, 3) == spec_find_op(s@, 4));
    }
    if let Some(i) = find_chars(s, &p4) {
        return Some((4, i));
    }
    proof {
        assert(spec_find_op(s@, 4) == spec_find_op(s@, 5));
    }
    if let Some(i) = find_chars(s, &p5) {
        return Some((5, i));
    }
    proof {
        assert(spec_find_op(s@, 5) == spec_find_op(s@, 6));
    }
    if let Some(i) = find_chars(s, &p6) {
        return Some((6, i));
    }
    proof {
        assert(spec_find_op(s@, 6) == spec_find_op(s@, 7));
    }
    None
}

/// The names carried by a variable list.
pub open spec fn names_of(vs: Seq<String>) -> Seq<Seq<char>> {
    vs.map_values(|x: String| x@)
}

/// The name `k` appears in the list `ns`.
pub open spec fn name_listed(ns: Seq<Seq<char>>, k: Seq<char>) -> bool {
    exists|i: int| 0 <= i < ns.len() && ns[i] == k
}

/// The variable list of a constraint: exactly the names keyed by either
/// side's coefficients, without duplicates.
pub open spec fn vars_ok(
    ns: Seq<Seq<char>>,
    a: Seq<(Seq<char>, int)>,
    b: Seq<(Seq<char>, int)>,
) -> bool {
    &&& (forall|i: int|
        0 <= i < ns.len() ==> assoc_has(a, #[trigger] ns[i]) || assoc_has(b, ns[i]))
    &&& (forall|i: int| 0 <= i < a.len() ==> name_listed(ns, (#[trigger] a[i]).0))
    &&& (forall|i: int| 0 <= i < b.len() ==> name_listed(ns, (#[trigger] b[i]).0))
    &&& (forall|i: int, j: int| 0 <= i < j < ns.len() ==> ns[i] != ns[j])
}

/// The parse of a comparison statement: the splitting operator, and the
/// parses of the two sides it separates; either side failing aborts the
/// whole constraint.
pub open spec fn spec_parse_rel(s: Seq<char>) -> Option<
    (int, (Seq<(Seq<char>, int)>, int), (Seq<(Seq<char>, int)>, int)),
> {
    match spec_find_op(s, 0) {
        None => None,
        Some(ki) => {
            let lhs = s.subrange(0, ki.1);
            let rhs = s.subrange(ki.1 + op_seq(ki.0).len(), s.len() as int);
            match spec_parse_linear(lhs) {
                None => None,
                Some(a) => match spec_parse_linear(rhs) {
                    None => None,
                    Some(b) => Some((ki.0, a, b)),
                },
            }
        },
    }
}

/// A parsed relational constraint: the symbolic formula and the set of
/// variable names referenced by either side.
#[derive(Debug)]
pub struct ParsedRelConstraint {
    /// The relation applied to the two translated sides.
    pub term: Term,
    /// The variable names referenced by either side, without duplicates.
    pub vars: Vec<String>,
}

/// The relation symbol sent to the solver for operator `k`.
fn rel_op_name(k: usize) -> (r: String)
    requires
        k < 7,
    ensures
        r@ == crate::term::op_smt_name(k as int),
{
    if k == 0 || k == 1 {
        String::from_str("<=")
    } else if k == 2 || k == 3 {
        String::from_str(">=")
    } else if k == 4 {
        String::from_str("<")
    } else if k == 5 {
        String::from_str(">")
    } else {
        String::from_str("=")
    }
}

/// Whether `name` is already listed in `vars`.
fn contains_name(vars: &Vec<String>, name: &String) -> (b: bool)
    ensures
        b == name_listed(names_of(vars@), name@),
{
    let n = vars.len();
    let mut i: usize = 0;
    while i < n
        invariant
            i <= n == vars@.len(),
            forall|t: int| 0 <= t < i ==> names_of(vars@)[t] != name@,
        decreases n - i,
    {
        if vars[i] == *name {
            proof {
                assert(names_of(vars@)[i as int] == name@);
            }
            return true;
        }
        i = i + 1;
    }
    false
}

/// Parses a comparison statement into a symbolic constraint: the
/// splitting operator is the first of the fixed priority list that
/// occurs anywhere, both sides must parse as linear expressions, and the
/// result carries the union of the variable names of both sides.
pub fn parse_rel_constraint_int(s: &str) -> (r: Option<ParsedRelConstraint>)
    ensures
        (match r {
            Some(c) => spec_parse_rel(s@) matches Some(kab) && rel_term_ok(
                c.term,
                kab.0,
                kab.1,
                kab.2,
            ) && vars_ok(names_of(c.vars@), kab.1.0, kab.2.0),
            None => spec_parse_rel(s@) is None,
        }),
{
    let n = s.unicode_len();
    let (k, idx) = match find_rel_op(s) {
        Some(p) => p,
        None => {
            return None;
        },
    };
    let oplen: usize = if k == 0 || k == 2 {
        2
    } else {
        1
    };
    let lhs = s.substring_char(0, idx);
    let rhs = s.substring_char(idx + oplen, n);
    let a = match parse_linear_expr_int(lhs) {
        Some(e) => e,
        None => {
            return None;
        },
    };
    let b = match parse_linear_expr_int(rhs) {
        Some(e) => e,
        None => {
            return None;
        },
    };
    let ta = crate::term::linear_expr_to_term(&a);
    let tb = crate::term::linear_expr_to_term(&b);
    let opname = rel_op_name(k);
    let mut args: Vec<Term> = Vec::new();
    args.push(ta);
    args.push(tb);
    let term = Term::App(opname, args);

    let ghost ae = a.entries();
    let ghost be = b.entries();
    let mut vars: Vec<String> = Vec::new();
    let na = a.coeffs.len();
    let mut i: usize = 0;
    while i < na
        invariant
            i <= na == a.coeffs@.len(),
            ae == a.entries(),
            a.wf(),
            vars@.len() == i,
            forall|t: int| 0 <= t < i ==> names_of(vars@)[t] == ae[t].0,
        decreases na - i,
    {
        let ghost ns0 = names_of(vars@);
        let name = a.coeffs[i].0.clone();
        vars.push(name);
        proof {
            assert(names_of(vars@) =~= ns0.push(ae[i as int].0));
            assert(forall|t: int| 0 <= t < i ==> names_of(vars@)[t] == ns0[t]);
        }
        i = i + 1;
    }
    proof {
        crate::linexpr::lemma_wf_keys_distinct(a);
        assert forall|t: int| 0 <= t < ae.len() implies name_listed(
            names_of(vars@),
            (#[trigger] ae[t]).0,
        ) by {
            assert(names_of(vars@)[t] == ae[t].0);
        }
        assert(forall|t: int|
            0 <= t < names_of(vars@).len() ==> assoc_has(ae, #[trigger] names_of(vars@)[t]));
        assert(forall|p: int, q: int|
            0 <= p < q < names_of(vars@).len() ==> names_of(vars@)[p] != names_of(vars@)[q]);
    }
    let nb = b.coeffs.len();
    let mut j: usize = 0;
    while j < nb
        invariant
            j <= nb == b.coeffs@.len(),
            be == b.entries(),
            b.wf(),
            forall|t: int|
                0 <= t < names_of(vars@).len() ==> assoc_has(ae, #[trigger] names_of(vars@)[t])
                    || assoc_has(be, names_of(vars@)[t]),
            forall|t: int| 0 <= t < ae.len() ==> name_listed(names_of(vars@), (#[trigger] ae[t]).0),
            forall|t: int| 0 <= t < j ==> name_listed(names_of(vars@), (#[trigger] be[t]).0),
            forall|p: int, q: int|
                0 <= p < q < names_of(vars@).len() ==> names_of(vars@)[p] != names_of(vars@)[q],
        decreases nb - j,
    {
        let ghost ns_before = names_of(vars@);
        let name = b.coeffs[j].0.clone();
        proof {
            assert(name@ == be[j as int].0);
        }
        if !contains_name(&vars, &name) {
            vars.push(name);
            proof {
                assert(names_of(vars@) =~= ns_before.push(be[j as int].0));
                assert(forall|t: int|
                    0 <= t < ns_before.len() ==> names_of(vars@)[t] == ns_before[t]);
                assert(names_of(vars@)[ns_before.len() as int] == be[j as int].0);
                assert(forall|t: int|
                    0 <= t < j ==> name_listed(ns_before, (#[trigger] be[t]).0) ==> name_listed(
                        names_of(vars@),
                        be[t].0,
                    ));
                assert(forall|t: int|
                    0 <= t < ae.len() ==> name_listed(ns_before, (#[trigger] ae[t]).0)
                        ==> name_listed(names_of(vars@), ae[t].0));
            }
        } else {
            proof {
                assert(name_listed(names_of(vars@), be[j as int].0));
            }
        }
        j = j + 1;
    }
    Some(ParsedRelConstraint { term, vars })
}

} // verus!
