//! The entailment orchestrator: locates the goal line, extracts typed
//! hypotheses, parses everything, checks variable-domain coverage, and
//! drives one solver round, mapping its answer to a tri-state verdict.

use vstd::prelude::*;
use crate::chartab::{is_space_char, spec_trim, trim_start_idx, trim_str, lemma_trim_start_is};
use crate::decl::{VarKind, spec_extract_decl, extract_decl_kind};
use crate::linexpr::assoc_has;
use crate::rel::{
    ParsedRelConstraint, names_of, vars_ok, spec_parse_rel, parse_rel_constraint_int, spec_find,
    find_chars,
};
use crate::solver::{
    SatStatus, spawn_solver, session_set_logic, session_set_print_success,
    session_set_produce_models, session_set_timeout_ms, session_set_random_seed,
    session_declare_int_const, session_assert_term, session_assert_negated, session_check_sat,
    session_error_text,
};
use crate::term::Term;

verus! {

/// The tri-state answer of one entailment call.  `Unknown` is a
/// first-class, frequent, non-error outcome.
#[derive(Debug, Clone, Copy, PartialEq, Eq, Structural)]
pub enum EntailmentVerdict {
    /// The hypotheses entail the goal (the negated query was
    /// unsatisfiable).  A strong signal, never a certificate.
    Entailed,
    /// A counterexample exists.
    NotEntailed,
    /// No opinion: missing or unparsable input, missing domain
    /// information, an absent solver, or an undecided query.
    Unknown,
}

/// A hard error of one entailment call; inconclusive conditions are
/// never errors.
#[derive(Debug)]
pub enum EntailsError {
    /// The input payload lacks the required goal structure.
    MalformedInput(String),
    /// The solver session failed during configuration or querying.
    Protocol(String),
}

/// The views of a hypothesis list.
pub open spec fn hview(hs: Seq<String>) -> Seq<Seq<char>> {
    hs.map_values(|h: String| h@)
}

/// The model of a kind-map vector.
pub open spec fn kind_entries_of(v: Seq<(String, VarKind)>) -> Seq<(Seq<char>, VarKind)> {
    v.map_values(|p: (String, VarKind)| (p.0@, p.1))
}

/// The name `k` is classified by the kind map.
pub open spec fn kind_has(m: Seq<(Seq<char>, VarKind)>, k: Seq<char>) -> bool {
    exists|i: int| 0 <= i < m.len() && (#[trigger] m[i]).0 == k
}

/// The index of the first kind-map entry carrying key `k`.
pub open spec fn kind_first_index(m: Seq<(Seq<char>, VarKind)>, k: Seq<char>) -> int
    decreases m.len(),
{
    if m.len() == 0 {
        0
    } else if m[0].0 == k {
        0
    } else {
        1 + kind_first_index(m.drop_first(), k)
    }
}

proof fn lemma_kind_first_index(m: Seq<(Seq<char>, VarKind)>, k: Seq<char>, j: int)
    requires
        0 <= j < m.len(),
        m[j].0 == k,
        forall|t: int| 0 <= t < j ==> (#[trigger] m[t]).0 != k,
    ensures
        kind_has(m, k),
        kind_first_index(m, k) == j,
    decreases j,
{
    if j > 0 {
        lemma_kind_first_index(m.drop_first(), k, j - 1);
    }
}

/// Classifying `k` as `v`: later classifications overwrite earlier ones
/// in place, keeping encounter order for iteration.
pub open spec fn kind_put(
    m: Seq<(Seq<char>, VarKind)>,
    k: Seq<char>,
    v: VarKind,
) -> Seq<(Seq<char>, VarKind)> {
    if kind_has(m, k) {
        m.update(kind_first_index(m, k), (k, v))
    } else {
        m.push((k, v))
    }
}

/// The kind map built by scanning all hypotheses in order; last write
/// wins on a name collision.
pub open spec fn spec_kind_map(hs: Seq<Seq<char>>) -> Seq<(Seq<char>, VarKind)>
    decreases hs.len(),
{
    if hs.len() == 0 {
        Seq::empty()
    } else {
        let prev = spec_kind_map(hs.drop_last());
        match spec_extract_decl(hs.last()) {
            None => prev,
            Some(p) => kind_put(prev, p.0, p.1),
        }
    }
}

/// Records a classification, overwriting the first entry with the same
/// name or appending a fresh one.
fn kind_put_exec(kinds: &mut Vec<(String, VarKind)>, name: String, v: VarKind)
    requires
        forall|i: int, j: int|
            0 <= i < j < old(kinds)@.len() ==> (#[trigger] old(kinds)@[i]).0@ != (
            #[trigger] old(kinds)@[j]).0@,
    ensures
        kind_entries_of(final(kinds)@) == kind_put(kind_entries_of(old(kinds)@), name@, v),
        forall|i: int, j: int|
            0 <= i < j < final(kinds)@.len() ==> (#[trigger] final(kinds)@[i]).0@ != (
            #[trigger] final(kinds)@[j]).0@,
{
    let ghost m = kind_entries_of(old(kinds)@);
    let n = kinds.len();
    let mut k: usize = 0;
    while k < n
        invariant
            k <= n == kinds@.len(),
            kinds@ == old(kinds)@,
            m == kind_entries_of(kinds@),
            forall|t: int| 0 <= t < k ==> (#[trigger] kinds@[t]).0@ != name@,
            forall|p: int, q: int|
                0 <= p < q < old(kinds)@.len() ==> (#[trigger] old(kinds)@[p]).0@ != (
                #[trigger] old(kinds)@[q]).0@,
        decreases n - k,
    {
        if kinds[k].0 == name {
            let entry = kinds.remove(k);
            kinds.insert(k, (entry.0, v));
            proof {
                lemma_kind_first_index(m, name@, k as int);
                assert(kinds@ =~= old(kinds)@.update(k as int, kinds@[k as int]));
                assert(kind_entries_of(kinds@) =~= kind_put(m, name@, v));
                assert(forall|t: int|
                    0 <= t < kinds@.len() ==> (#[trigger] kinds@[t]).0 == old(kinds)@[t].0);
                assert forall|p: int, q: int|
                    0 <= p < q < kinds@.len() implies (#[trigger] kinds@[p]).0@ != (
                #[trigger] kinds@[q]).0@ by {
                    assert(kinds@[p].0 == old(kinds)@[p].0);
                    assert(kinds@[q].0 == old(kinds)@[q].0);
                }
            }
            return ;
        }
        k = k + 1;
    }
    proof {
        assert(!kind_has(m, name@));
    }
    kinds.push((name, v));
    proof {
        assert(kind_entries_of(kinds@) =~= kind_put(m, name@, v));
    }
}

/// Scans every hypothesis and classifies each declared variable; later
/// declarations of the same name overwrite earlier ones.
fn classify_vars(hyps: &Vec<String>) -> (r: Vec<(String, VarKind)>)
    ensures
        kind_entries_of(r@) == spec_kind_map(hview(hyps@)),
        forall|i: int, j: int|
            0 <= i < j < r@.len() ==> (#[trigger] r@[i]).0@ != (#[trigger] r@[j]).0@,
{
    let mut kinds: Vec<(String, VarKind)> = Vec::new();
    let n = hyps.len();
    let mut idx: usize = 0;
    proof {
        assert(hview(hyps@).take(0) =~= Seq::<Seq<char>>::empty());
        assert(kind_entries_of(kinds@) =~= Seq::<(Seq<char>, VarKind)>::empty());
    }
    while idx < n
        invariant
            idx <= n == hyps@.len(),
            kind_entries_of(kinds@) == spec_kind_map(hview(hyps@).take(idx as int)),
            forall|i: int, j: int|
                0 <= i < j < kinds@.len() ==> (#[trigger] kinds@[i]).0@ != (
                #[trigger] kinds@[j]).0@,
        decreases n - idx,
    {
        proof {
            assert(hview(hyps@).take(idx + 1).drop_last() =~= hview(hyps@).take(idx as int));
            assert(hview(hyps@).take(idx + 1).last() == hyps@[idx as int]@);
        }
        match extract_decl_kind(hyps[idx].as_str()) {
            Some(p) => {
                kind_put_exec(&mut kinds, p.0, p.1);
            },
            None => {},
        }
        idx = idx + 1;
    }
    proof {
        assert(hview(hyps@).take(n as int) =~= hview(hyps@));
    }
    kinds
}

/// The index of the `\n` ending the line that starts at `i`, or the end
/// of the text.
pub open spec fn line_break(s: Seq<char>, i: int) -> int
    decreases s.len() - i,
{
    if i < 0 || i >= s.len() || s[i] == '\n' {
        i
    } else {
        line_break(s, i + 1)
    }
}

proof fn lemma_line_break(s: Seq<char>, i: int)
    requires
        0 <= i <= s.len(),
    ensures
        i <= line_break(s, i) <= s.len(),
    decreases s.len() - i,
{
    if i < s.len() && s[i] != '\n' {
        lemma_line_break(s, i + 1);
    }
}

proof fn lemma_line_break_is(s: Seq<char>, i: int, e: int)
    requires
        0 <= i <= e <= s.len(),
        forall|t: int| i <= t < e ==> (#[trigger] s[t]) != '\n',
        e < s.len() ==> s[e] == '\n',
    ensures
        line_break(s, i) == e,
    decreases e - i,
{
    if i < e {
        lemma_line_break_is(s, i + 1, e);
    }
}

/// The content of the line starting at `i`: up to the next `\n`, with
/// one carriage return before a line feed stripped.
pub open spec fn line_content(s: Seq<char>, i: int) -> Seq<char> {
    let e = line_break(s, i);
    if e < s.len() && e > i && s[e - 1] == '\r' {
        s.subrange(i, e - 1)
    } else {
        s.subrange(i, e)
    }
}

/// The target text: scan the goal's pretty text line by line for the
/// first line whose trimmed form begins with the turnstile glyph; the
/// trimmed remainder of that line is the target.
pub open spec fn spec_find_target(s: Seq<char>, i: int) -> Option<Seq<char>>
    decreases s.len() - i,
    via spec_find_target_decreases
{
    if i < 0 || i > s.len() {
        None
    } else {
        let c = line_content(s, i);
        let a = trim_start_idx(c, 0);
        if a < c.len() && c[a] == '\u{22a2}' {
            Some(spec_trim(c.subrange(a + 1, c.len() as int)))
        } else {
            let e = line_break(s, i);
            if e >= s.len() {
                None
            } else {
                spec_find_target(s, e + 1)
            }
        }
    }
}

#[via_fn]
proof fn spec_find_target_decreases(s: Seq<char>, i: int) {
    if 0 <= i <= s.len() {
        lemma_line_break(s, i);
    }
}

/// Locates the target text of a goal's pretty form.
fn find_target_line(pretty: &str) -> (r: Option<String>)
    ensures
        (match r {
            Some(t) => spec_find_target(pretty@, 0) == Some(t@),
            None => spec_find_target(pretty@, 0) is None,
        }),
{
    let n = pretty.unicode_len();
    let mut i: usize = 0;
    loop
        invariant
            i <= n == pretty@.len(),
            spec_find_target(pretty@, 0) == spec_find_target(pretty@, i as int),
        decreases n - i,
    {
        let mut e = i;
        while e < n && pretty.get_char(e) != '\n'
            invariant
                i <= e <= n == pretty@.len(),
                forall|t: int| i <= t < e ==> (#[trigger] pretty@[t]) != '\n',
            decreases n - e,
        {
            e = e + 1;
        }
        proof {
            lemma_line_break_is(pretty@, i as int, e as int);
        }
        let ce: usize = if e < n && e > i && pretty.get_char(e - 1) == '\r' {
            e - 1
        } else {
            e
        };
        proof {
            assert(line_content(pretty@, i as int) =~= pretty@.subrange(i as int, ce as int));
        }
        let mut a = i;
        while a < ce && pretty.get_char(a).is_whitespace()
            invariant
                i <= a <= ce <= n == pretty@.len(),
                forall|t: int| i <= t < a ==> is_space_char(#[trigger] pretty@[t]),
            decreases ce - a,
        {
            a = a + 1;
        }
        proof {
            let c = line_content(pretty@, i as int);
            assert(forall|t: int| 0 <= t < a - i ==> is_space_char(#[trigger] c[t]));
            lemma_trim_start_is(c, 0, a - i);
        }
        if a < ce && pretty.get_char(a) == '\u{22a2}' {
            let rest = pretty.substring_char(a + 1, ce);
            let t = trim_str(rest);
            proof {
                let c = line_content(pretty@, i as int);
                assert(rest@ =~= c.subrange(a - i + 1, c.len() as int));
            }
            return Some(String::from_str(t));
        }
        if e >= n {
            return None;
        }
        i = e + 1;
    }
}

/// The candidate arithmetic statement of a hypothesis line: what stands
/// right of the first `:`, trimmed; nothing without a `:` or when empty.
pub open spec fn spec_hyp_stmt(h: Seq<char>) -> Option<Seq<char>> {
    match spec_find(h, seq![':'], 0) {
        None => None,
        Some(i) => {
            let r = spec_trim(h.subrange(i + 1, h.len() as int));
            if r.len() == 0 {
                None
            } else {
                Some(r)
            }
        },
    }
}

/// The successfully parsed hypothesis constraints, in order; individual
/// parse failures are silently skipped.
pub open spec fn spec_hyp_rels(hs: Seq<Seq<char>>) -> Seq<
    (int, (Seq<(Seq<char>, int)>, int), (Seq<(Seq<char>, int)>, int)),
>
    decreases hs.len(),
{
    if hs.len() == 0 {
        Seq::empty()
    } else {
        let prev = spec_hyp_rels(hs.drop_last());
        match spec_hyp_stmt(hs.last()) {
            None => prev,
            Some(stmt) => match spec_parse_rel(stmt) {
                None => prev,
                Some(kab) => prev.push(kab),
            },
        }
    }
}

/// A parsed constraint agrees with its model: the formula translates
/// both sides under the model's operator, and the variable list is the
/// union of both sides' names.
pub open spec fn rel_matches(
    c: ParsedRelConstraint,
    kab: (int, (Seq<(Seq<char>, int)>, int), (Seq<(Seq<char>, int)>, int)),
) -> bool {
    crate::term::rel_term_ok(c.term, kab.0, kab.1, kab.2) && vars_ok(
        names_of(c.vars@),
        kab.1.0,
        kab.2.0,
    )
}

/// Every variable of the constraint model is classified by the kind map.
pub open spec fn rel_covered(
    kinds: Seq<(Seq<char>, VarKind)>,
    kab: (int, (Seq<(Seq<char>, int)>, int), (Seq<(Seq<char>, int)>, int)),
) -> bool {
    (forall|i: int| 0 <= i < kab.1.0.len() ==> kind_has(kinds, (#[trigger] kab.1.0[i]).0))
        && (forall|i: int| 0 <= i < kab.2.0.len() ==> kind_has(kinds, (#[trigger] kab.2.0[i]).0))
}

/// The inconclusive conditions of one call: no target line, an empty
/// target, an unparsable target, or a variable of the target or of any
/// parsed hypothesis without a domain classification.  All of them give
/// the verdict `Unknown` without an error.
pub open spec fn spec_inconclusive(p: Seq<char>, hs: Seq<Seq<char>>) -> bool {
    match spec_find_target(p, 0) {
        None => true,
        Some(t) => t.len() == 0 || (match spec_parse_rel(t) {
            None => true,
            Some(kab) => !(rel_covered(spec_kind_map(hs), kab) && (forall|i: int|
                0 <= i < spec_hyp_rels(hs).len() ==> rel_covered(
                    spec_kind_map(hs),
                    #[trigger] spec_hyp_rels(hs)[i],
                ))),
        }),
    }
}

/// Whether `name` is classified by the kind map.
fn kinds_contain(kinds: &Vec<(String, VarKind)>, name: &String) -> (b: bool)
    ensures
        b == kind_has(kind_entries_of(kinds@), name@),
{
    let n = kinds.len();
    let mut i: usize = 0;
    while i < n
        invariant
            i <= n == kinds@.len(),
            forall|t: int| 0 <= t < i ==> (#[trigger] kind_entries_of(kinds@)[t]).0 != name@,
        decreases n - i,
    {
        if kinds[i].0 == *name {
            proof {
                assert(kind_entries_of(kinds@)[i as int].0 == name@);
            }
            return true;
        }
        i = i + 1;
    }
    false
}

/// Whether every variable of the constraint is classified.
fn constraint_covered(kinds: &Vec<(String, VarKind)>, c: &ParsedRelConstraint) -> (b: bool)
    ensures
        b == (forall|t: int|
            0 <= t < names_of(c.vars@).len() ==> kind_has(
                kind_entries_of(kinds@),
                #[trigger] names_of(c.vars@)[t],
            )),
{
    let n = c.vars.len();
    let mut i: usize = 0;
    while i < n
        invariant
            i <= n == c.vars@.len(),
            forall|t: int|
                0 <= t < i ==> kind_has(kind_entries_of(kinds@), #[trigger] names_of(c.vars@)[t]),
        decreases n - i,
    {
        if !kinds_contain(kinds, &c.vars[i]) {
            proof {
                assert(names_of(c.vars@)[i as int] == c.vars@[i as int]@);
            }
            return false;
        }
        i = i + 1;
    }
    true
}

/// Coverage of the listed names carries over to the constraint model
/// they stand for.
proof fn lemma_cover_from_names(
    ns: Seq<Seq<char>>,
    kab: (int, (Seq<(Seq<char>, int)>, int), (Seq<(Seq<char>, int)>, int)),
    km: Seq<(Seq<char>, VarKind)>,
)
    requires
        vars_ok(ns, kab.1.0, kab.2.0),
        forall|t: int| 0 <= t < ns.len() ==> kind_has(km, #[trigger] ns[t]),
    ensures
        rel_covered(km, kab),
{
    assert forall|i: int| 0 <= i < kab.1.0.len() implies kind_has(
        km,
        (#[trigger] kab.1.0[i]).0,
    ) by {
        let w = choose|w: int| 0 <= w < ns.len() && ns[w] == kab.1.0[i].0;
        assert(kind_has(km, ns[w]));
    }
    assert forall|i: int| 0 <= i < kab.2.0.len() implies kind_has(
        km,
        (#[trigger] kab.2.0[i]).0,
    ) by {
        let w = choose|w: int| 0 <= w < ns.len() && ns[w] == kab.2.0[i].0;
        assert(kind_has(km, ns[w]));
    }
}

/// A missing classification among the listed names refutes coverage of
/// the constraint model.
proof fn lemma_missing_name(
    ns: Seq<Seq<char>>,
    kab: (int, (Seq<(Seq<char>, int)>, int), (Seq<(Seq<char>, int)>, int)),
    km: Seq<(Seq<char>, VarKind)>,
    t: int,
)
    requires
        vars_ok(ns, kab.1.0, kab.2.0),
        0 <= t < ns.len(),
        !kind_has(km, ns[t]),
    ensures
        !rel_covered(km, kab),
{
    assert(assoc_has(kab.1.0, ns[t]) || assoc_has(kab.2.0, ns[t]));
    if assoc_has(kab.1.0, ns[t]) {
        let w = choose|w: int| 0 <= w < kab.1.0.len() && (#[trigger] kab.1.0[w]).0 == ns[t];
        assert(kab.1.0[w].0 == ns[t]);
    } else {
        let w = choose|w: int| 0 <= w < kab.2.0.len() && (#[trigger] kab.2.0[w]).0 == ns[t];
        assert(kab.2.0[w].0 == ns[t]);
    }
}

/// The verdict for a solver status: unsatisfiable means entailed,
/// satisfiable means a counterexample exists, and an undecided query
/// stays unknown.
pub open spec fn spec_verdict_of(st: SatStatus) -> EntailmentVerdict {
    match st {
        SatStatus::Unsat => EntailmentVerdict::Entailed,
        SatStatus::Sat => EntailmentVerdict::NotEntailed,
        SatStatus::Unknown => EntailmentVerdict::Unknown,
    }
}

/// Maps a solver status to the verdict, exactly as `spec_verdict_of`
/// states.
pub fn verdict_of_status(st: SatStatus) -> (r: EntailmentVerdict)
    ensures
        r == spec_verdict_of(st),
{
    match st {
        SatStatus::Unsat => EntailmentVerdict::Entailed,
        SatStatus::Sat => EntailmentVerdict::NotEntailed,
        SatStatus::Unknown => EntailmentVerdict::Unknown,
    }
}

/// The implicit constraint asserted for a variable classified Natural:
/// the formula `(>= name 0)`.
fn nat_nonneg_term(name: String) -> (r: Term)
    ensures
        (match r {
            Term::App(f, args) => f@ == (">=")@ && args@.len() == 2 && (match args@[0] {
                Term::Sym(s) => s@ == name@,
                _ => false,
            }) && (match args@[1] {
                Term::IntLit(v) => v == 0,
                _ => false,
            }),
            _ => false,
        }),
{
    let mut args: Vec<Term> = Vec::new();
    args.push(Term::Sym(name));
    args.push(Term::IntLit(0));
    Term::App(String::from_str(">="), args)
}

/// Drives one solver round: configure the session, declare every
/// classified variable as an integer constant (asserting non-negativity
/// for naturals), assert the hypothesis constraints and the negated
/// target, and map the reported status.  An absent solver yields
/// `Unknown`; a session failure is a protocol error, never `Unknown`.
fn solve_query(
    kinds: &Vec<(String, VarKind)>,
    hyp_rels: &Vec<ParsedRelConstraint>,
    target: &ParsedRelConstraint,
    timeout_ms: u64,
    seed: u64,
) -> (r: Result<EntailmentVerdict, EntailsError>)
    ensures
        r matches Err(e) ==> e matches EntailsError::Protocol(_),
{
    let mut sess = match spawn_solver() {
        Some(s) => s,
        None => {
            return Ok(EntailmentVerdict::Unknown);
        },
    };
    match session_set_logic(&mut sess, "QF_LIA") {
        Ok(_) => {},
        Err(e) => {
            return Err(EntailsError::Protocol(session_error_text(&e)));
        },
    }
    match session_set_print_success(&mut sess, false) {
        Ok(_) => {},
        Err(e) => {
            return Err(EntailsError::Protocol(session_error_text(&e)));
        },
    }
    match session_set_produce_models(&mut sess, false) {
        Ok(_) => {},
        Err(e) => {
            return Err(EntailsError::Protocol(session_error_text(&e)));
        },
    }
    match session_set_timeout_ms(&mut sess, timeout_ms) {
        Ok(_) => {},
        Err(e) => {
            return Err(EntailsError::Protocol(session_error_text(&e)));
        },
    }
    match session_set_random_seed(&mut sess, seed) {
        Ok(_) => {},
        Err(e) => {
            return Err(EntailsError::Protocol(session_error_text(&e)));
        },
    }
    let nk = kinds.len();
    let mut i: usize = 0;
    while i < nk
        invariant
            nk == kinds@.len(),
        decreases nk - i,
    {
        match session_declare_int_const(&mut sess, kinds[i].0.as_str()) {
            Ok(_) => {},
            Err(e) => {
                return Err(EntailsError::Protocol(session_error_text(&e)));
            },
        }
        let is_nat = match kinds[i].1 {
            VarKind::Nat => true,
            VarKind::Int => false,
        };
        if is_nat {
            let ge_zero = nat_nonneg_term(kinds[i].0.clone());
            match session_assert_term(&mut sess, &ge_zero) {
                Ok(_) => {},
                Err(e) => {
                    return Err(EntailsError::Protocol(session_error_text(&e)));
                },
            }
        }
        i = i + 1;
    }
    let nh = hyp_rels.len();
    let mut j: usize = 0;
    while j < nh
        invariant
            nh == hyp_rels@.len(),
        decreases nh - j,
    {
        match session_assert_term(&mut sess, &hyp_rels[j].term) {
            Ok(_) => {},
            Err(e) => {
                return Err(EntailsError::Protocol(session_error_text(&e)));
            },
        }
        j = j + 1;
    }
    match session_assert_negated(&mut sess, &target.term) {
        Ok(_) => {},
        Err(e) => {
            return Err(EntailsError::Protocol(session_error_text(&e)));
        },
    }
    let st = match session_check_sat(&mut sess) {
        Ok(st) => st,
        Err(e) => {
            return Err(EntailsError::Protocol(session_error_text(&e)));
        },
    };
    Ok(verdict_of_status(st))
}

/// Checks whether the hypotheses entail the goal text: every
/// inconclusive condition yields `Ok(Unknown)`, and an error is raised
/// only when the solver session itself breaks after a complete,
/// fully-covered parse.
pub fn entails_from_goal(pretty: &str, hyps: &Vec<String>, timeout_ms: u64, seed: u64) -> (r:
    Result<EntailmentVerdict, EntailsError>)
    ensures
        spec_inconclusive(pretty@, hview(hyps@)) ==> r == Ok::<
            EntailmentVerdict,
            EntailsError,
        >(EntailmentVerdict::Unknown),
        r matches Err(e) ==> !spec_inconclusive(pretty@, hview(hyps@)) && (e matches
            EntailsError::Protocol(_)),
{
    let target_text = match find_target_line(pretty) {
        Some(t) => t,
        None => {
            return Ok(EntailmentVerdict::Unknown);
        },
    };
    if target_text.as_str().unicode_len() == 0 {
        return Ok(EntailmentVerdict::Unknown);
    }
    let target = match parse_rel_constraint_int(target_text.as_str()) {
        Some(c) => c,
        None => {
            return Ok(EntailmentVerdict::Unknown);
        },
    };
    let ghost tkab = spec_parse_rel(target_text@)->Some_0;
    let kinds = classify_vars(hyps);
    let ghost km = kind_entries_of(kinds@);

    let mut hyp_rels: Vec<ParsedRelConstraint> = Vec::new();
    let nh = hyps.len();
    let mut idx: usize = 0;
    proof {
        assert(hview(hyps@).take(0) =~= Seq::<Seq<char>>::empty());
    }
    while idx < nh
        invariant
            idx <= nh == hyps@.len(),
            hyp_rels@.len() == spec_hyp_rels(hview(hyps@).take(idx as int)).len(),
            forall|t: int|
                0 <= t < hyp_rels@.len() ==> rel_matches(
                    #[trigger] hyp_rels@[t],
                    spec_hyp_rels(hview(hyps@).take(idx as int))[t],
                ),
        decreases nh - idx,
    {
        proof {
            assert(hview(hyps@).take(idx + 1).drop_last() =~= hview(hyps@).take(idx as int));
            assert(hview(hyps@).take(idx + 1).last() == hyps@[idx as int]@);
        }
        let h = &hyps[idx];
        let n_h = h.as_str().unicode_len();
        let colon: Vec<char> = vec![':'];
        proof {
            assert(colon@ =~= seq![':']);
        }
        match find_chars(h.as_str(), &colon) {
            None => {},
            Some(ci) => {
                let rhs_raw = h.as_str().substring_char(ci + 1, n_h);
                let rhs = trim_str(rhs_raw);
                if rhs.unicode_len() > 0 {
                    match parse_rel_constraint_int(rhs) {
                        None => {},
                        Some(c) => {
                            hyp_rels.push(c);
                        },
                    }
                }
            },
        }
        idx = idx + 1;
    }
    proof {
        assert(hview(hyps@).take(nh as int) =~= hview(hyps@));
    }

    if !constraint_covered(&kinds, &target) {
        proof {
            let ns = names_of(target.vars@);
            let t = choose|t: int| 0 <= t < ns.len() && !kind_has(km, #[trigger] ns[t]);
            lemma_missing_name(ns, tkab, km, t);
        }
        return Ok(EntailmentVerdict::Unknown);
    }
    proof {
        lemma_cover_from_names(names_of(target.vars@), tkab, km);
    }
    let nr = hyp_rels.len();
    let mut ri: usize = 0;
    while ri < nr
        invariant
            ri <= nr == hyp_rels@.len(),
            km == kind_entries_of(kinds@),
            hyp_rels@.len() == spec_hyp_rels(hview(hyps@)).len(),
            forall|t: int|
                0 <= t < hyp_rels@.len() ==> rel_matches(
                    #[trigger] hyp_rels@[t],
                    spec_hyp_rels(hview(hyps@))[t],
                ),
            forall|t: int| 0 <= t < ri ==> rel_covered(km, #[trigger] spec_hyp_rels(hview(hyps@))[t]),
        decreases nr - ri,
    {
        if !constraint_covered(&kinds, &hyp_rels[ri]) {
            proof {
                let ns = names_of(hyp_rels@[ri as int].vars@);
                let t = choose|t: int| 0 <= t < ns.len() && !kind_has(km, #[trigger] ns[t]);
                lemma_missing_name(ns, spec_hyp_rels(hview(hyps@))[ri as int], km, t);
            }
            return Ok(EntailmentVerdict::Unknown);
        }
        proof {
            lemma_cover_from_names(
                names_of(hyp_rels@[ri as int].vars@),
                spec_hyp_rels(hview(hyps@))[ri as int],
                km,
            );
        }
        ri = ri + 1;
    }
    proof {
        assert(!spec_inconclusive(pretty@, hview(hyps@)));
    }
    solve_query(&kinds, &hyp_rels, &target, timeout_ms, seed)
}

/// Whether the payload holds a first goal under `goals`; a function of
/// the payload alone.
pub uninterp spec fn payload_has_goals0(v: serde_json::Value) -> bool;

/// The `pretty` text of the payload's first goal, empty when the field
/// is missing or not text; a function of the payload alone.
pub uninterp spec fn payload_pretty(v: serde_json::Value) -> Seq<char>;

/// The `text` fields of the first goal's hypotheses, in order, skipping
/// hypotheses without one; a function of the payload alone.
pub uninterp spec fn payload_hyp_texts(v: serde_json::Value) -> Seq<Seq<char>>;

/// Relies on `serde_json::Value::{get, as_array, as_str}`: reads the
/// first element of `goals`, its `pretty` text (empty when missing or
/// not a string) and its hypotheses' `text` fields.  All three are
/// functions of the payload alone, named above.
#[verifier::external_body]
fn payload_first_goal(v: &serde_json::Value) -> (r: Option<(String, Vec<String>)>)
    ensures
        r is Some <==> payload_has_goals0(*v),
        r matches Some(p) ==> p.0@ == payload_pretty(*v) && hview(p.1@) == payload_hyp_texts(*v),
{
    let goal = v.get("goals")?.as_array()?.first()?;
    let pretty = goal.get("pretty").and_then(|p| p.as_str()).unwrap_or("").to_string();
    let hyps = match goal.get("hyps").and_then(|h| h.as_array()) {
        Some(arr) => arr.iter().filter_map(
            |h| h.get("text").and_then(|t| t.as_str()).map(str::to_string),
        ).collect(),
        None => Vec::new(),
    };
    Some((pretty, hyps))
}

/// Entailment check on a goal-dump payload: reads `goals[0]`, its
/// `pretty` text, and the `text` field of each hypothesis, then runs
/// the entailment pipeline on those texts.  A payload without
/// `goals[0]` is a malformed-input error, if and only if; every
/// inconclusive condition collapses to `Ok(Unknown)`; and a protocol
/// error is raised only when the solver session itself breaks after a
/// complete, fully-covered parse.
pub fn entails_from_pp_dump(pp_dump: &serde_json::Value, timeout_ms: u64, seed: u64) -> (r: Result<
    EntailmentVerdict,
    EntailsError,
>)
    ensures
        (r matches Err(e) && e matches EntailsError::MalformedInput(_)) <==> !payload_has_goals0(
            *pp_dump,
        ),
        payload_has_goals0(*pp_dump) && spec_inconclusive(
            payload_pretty(*pp_dump),
            payload_hyp_texts(*pp_dump),
        ) ==> r == Ok::<EntailmentVerdict, EntailsError>(EntailmentVerdict::Unknown),
        (r matches Err(e) && e matches EntailsError::Protocol(_)) ==> payload_has_goals0(*pp_dump)
            && !spec_inconclusive(payload_pretty(*pp_dump), payload_hyp_texts(*pp_dump)),
{
    let (pretty, hyps) = match payload_first_goal(pp_dump) {
        Some(p) => p,
        None => {
            return Err(EntailsError::MalformedInput(String::from_str("pp_dump missing goals[0]")));
        },
    };
    entails_from_goal(pretty.as_str(), &hyps, timeout_ms, seed)
}

/// Law: one entailment call is deterministic relative to the solver's
/// answer.  Equal goal text and hypothesis lists give equal target
/// extraction, kind maps, parsed hypothesis constraints, and
/// inconclusiveness; and an equal solver status maps to an equal
/// verdict.  The pipeline itself adds no nondeterminism.
pub proof fn lemma_entailment_deterministic(
    p1: Seq<char>,
    hs1: Seq<Seq<char>>,
    st1: SatStatus,
    p2: Seq<char>,
    hs2: Seq<Seq<char>>,
    st2: SatStatus,
)
    requires
        p1 == p2,
        hs1 == hs2,
        st1 == st2,
    ensures
        spec_find_target(p1, 0) == spec_find_target(p2, 0),
        spec_kind_map(hs1) == spec_kind_map(hs2),
        spec_hyp_rels(hs1) == spec_hyp_rels(hs2),
        spec_inconclusive(p1, hs1) == spec_inconclusive(p2, hs2),
        spec_verdict_of(st1) == spec_verdict_of(st2),
{
}

} // verus!
