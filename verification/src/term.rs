//! Canonical symbolic arithmetic terms, built out of linear expressions.
//!
//! A `Term` mirrors the solver's s-expression shape: an integer literal,
//! a bare symbol, or an application of a named operator to arguments.

use vstd::prelude::*;
use crate::linexpr::LinearExpr;

verus! {

/// A symbolic term in the solver's term language.
#[derive(Debug)]
pub enum Term {
    /// An integer literal.
    IntLit(i64),
    /// A bare symbol (a variable name).
    Sym(String),
    /// An application of a named operator to arguments.
    App(String, Vec<Term>),
}

/// The entries of a coefficient list whose coefficient is nonzero, in
/// stored order.
pub open spec fn nonzero_entries(m: Seq<(Seq<char>, int)>) -> Seq<(Seq<char>, int)>
    decreases m.len(),
{
    if m.len() == 0 {
        Seq::empty()
    } else {
        let rest = nonzero_entries(m.drop_last());
        if m.last().1 != 0 {
            rest.push(m.last())
        } else {
            rest
        }
    }
}

/// The symbolic atom standing for one variable with coefficient `c`: the
/// bare symbol when `c` is 1, a negation node when `c` is -1, and a
/// scalar multiplication node otherwise.
pub open spec fn is_var_atom(t: Term, k: Seq<char>, c: int) -> bool {
    match t {
        Term::Sym(s) => c == 1 && s@ == k,
        Term::App(f, args) => if c == -1 {
            f@ == ("-")@ && args@.len() == 1 && (match args@[0] {
                Term::Sym(s) => s@ == k,
                _ => false,
            })
        } else {
            c != 1 && c != 0 && f@ == ("*")@ && args@.len() == 2 && (match args@[0] {
                Term::IntLit(v) => v as int == c,
                _ => false,
            }) && (match args@[1] {
                Term::Sym(s) => s@ == k,
                _ => false,
            })
        },
        _ => false,
    }
}

/// The list of addends built from a linear expression: the constant first
/// when nonzero, then one atom per variable with nonzero coefficient, in
/// stored key order.
pub open spec fn terms_list_ok(list: Seq<Term>, m: Seq<(Seq<char>, int)>, c0: int) -> bool {
    let nz = nonzero_entries(m);
    let off: int = if c0 != 0 {
        1
    } else {
        0
    };
    &&& list.len() == off + nz.len()
    &&& (c0 != 0 ==> (match list[0] {
        Term::IntLit(v) => v as int == c0,
        _ => false,
    }))
    &&& (forall|t: int|
        0 <= t < nz.len() ==> is_var_atom(#[trigger] list[off + t], nz[t].0, nz[t].1))
}

/// The translator's contract: the literal zero for an empty sum, a single
/// addend unwrapped, and otherwise an addition node over the full list.
pub open spec fn translation_ok(m: Seq<(Seq<char>, int)>, c0: int, r: Term) -> bool {
    let nz = nonzero_entries(m);
    let count: int = (if c0 != 0 {
        1int
    } else {
        0int
    }) + nz.len();
    if count == 0 {
        match r {
            Term::IntLit(v) => v == 0,
            _ => false,
        }
    } else if count == 1 {
        if c0 != 0 {
            match r {
                Term::IntLit(v) => v as int == c0,
                _ => false,
            }
        } else {
            is_var_atom(r, nz[0].0, nz[0].1)
        }
    } else {
        match r {
            Term::App(f, args) => f@ == ("+")@ && terms_list_ok(args@, m, c0),
            _ => false,
        }
    }
}

/// The relation symbol for operator `k` of the priority list: both
/// less-or-equal spellings share `<=`, both greater-or-equal spellings
/// share `>=`, and the rest map to themselves.
pub open spec fn op_smt_name(k: int) -> Seq<char> {
    if k == 0 || k == 1 {
        ("<=")@
    } else if k == 2 || k == 3 {
        (">=")@
    } else if k == 4 {
        ("<")@
    } else if k == 5 {
        (">")@
    } else {
        ("=")@
    }
}

/// A relational formula: the relation symbol applied to the translations
/// of the two sides.
pub open spec fn rel_term_ok(
    t: Term,
    k: int,
    a: (Seq<(Seq<char>, int)>, int),
    b: (Seq<(Seq<char>, int)>, int),
) -> bool {
    match t {
        Term::App(f, args) => f@ == op_smt_name(k) && args@.len() == 2 && translation_ok(
            a.0,
            a.1,
            args@[0],
        ) && translation_ok(b.0, b.1, args@[1]),
        _ => false,
    }
}

/// Builds the symbolic atom for one variable with a nonzero coefficient.
fn var_atom(name: String, c: i64) -> (r: Term)
    requires
        c != 0,
    ensures
        is_var_atom(r, name@, c as int),
{
    if c == 1 {
        Term::Sym(name)
    } else if c == -1 {
        let mut args: Vec<Term> = Vec::new();
        args.push(Term::Sym(name));
        Term::App(String::from_str("-"), args)
    } else {
        let mut args: Vec<Term> = Vec::new();
        args.push(Term::IntLit(c));
        args.push(Term::Sym(name));
        Term::App(String::from_str("*"), args)
    }
}

/// Translates a linear expression into a canonical symbolic term: the
/// constant (when nonzero) and one atom per variable with a nonzero
/// coefficient, unwrapped when alone, else summed with an addition node.
pub fn linear_expr_to_term(e: &LinearExpr) -> (r: Term)
    ensures
        translation_ok(e.entries(), e.c0 as int, r),
{
    let ghost m = e.entries();
    let mut terms: Vec<Term> = Vec::new();
    let ghost off: int = if e.c0 != 0 {
        1int
    } else {
        0int
    };
    if e.c0 != 0 {
        terms.push(Term::IntLit(e.c0));
    }
    let n = e.coeffs.len();
    let mut idx: usize = 0;
    proof {
        assert(m.take(0) =~= Seq::<(Seq<char>, int)>::empty());
    }
    while idx < n
        invariant
            idx <= n == e.coeffs@.len(),
            m == e.entries(),
            off == (if e.c0 as int != 0 {
                1int
            } else {
                0int
            }),
            terms@.len() == off + nonzero_entries(m.take(idx as int)).len(),
            e.c0 as int != 0 ==> (match terms@[0] {
                Term::IntLit(v) => v as int == e.c0 as int,
                _ => false,
            }),
            forall|t: int|
                0 <= t < nonzero_entries(m.take(idx as int)).len() ==> is_var_atom(
                    #[trigger] terms@[off + t],
                    nonzero_entries(m.take(idx as int))[t].0,
                    nonzero_entries(m.take(idx as int))[t].1,
                ),
        decreases n - idx,
    {
        let c = e.coeffs[idx].1;
        if c != 0 {
            let name = e.coeffs[idx].0.clone();
            let atom = var_atom(name, c);
            terms.push(atom);
        }
        proof {
            assert(m.take(idx + 1).drop_last() =~= m.take(idx as int));
            assert(m.take(idx + 1).last() == m[idx as int]);
        }
        idx = idx + 1;
    }
    proof {
        assert(m.take(n as int) =~= m);
    }
    if terms.len() == 0 {
        Term::IntLit(0)
    } else if terms.len() == 1 {
        terms.remove(0)
    } else {
        Term::App(String::from_str("+"), terms)
    }
}

} // verus!
