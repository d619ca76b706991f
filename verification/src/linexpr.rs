//! Tokenizes a restricted arithmetic fragment into a signed sum of
//! variables and a constant.
//!
//! The grammar is a sequence of terms (decimal literals or identifiers)
//! separated by `+` and `-`, with whitespace ignored everywhere.  A
//! fragment holding any nonlinear operator is rejected outright, and so
//! is any other unexpected character.

use vstd::prelude::*;
use crate::chartab::{is_alnum_char, is_digit_char, is_space_char, is_dec_digit};
use crate::sanitize::{spec_sanitize, sanitize_name};

verus! {

/// Saturating addition clipped to the `i64` range, at the spec level.
pub open spec fn sat_add_i64(a: int, b: int) -> int {
    if a + b > i64::MAX {
        i64::MAX as int
    } else if a + b < i64::MIN {
        i64::MIN as int
    } else {
        a + b
    }
}

/// Saturating `i64` addition.
pub fn sat_add(a: i64, b: i64) -> (r: i64)
    ensures
        r as int == sat_add_i64(a as int, b as int),
{
    if b >= 0 {
        if a > i64::MAX - b {
            i64::MAX
        } else {
            a + b
        }
    } else {
        if a < i64::MIN - b {
            i64::MIN
        } else {
            a + b
        }
    }
}

/// A character that marks the fragment as nonlinear (or otherwise out of
/// the accepted fragment), rejecting the whole expression.
pub open spec fn is_bad_char(c: char) -> bool {
    c == '*' || c == '/' || c == '^' || c == '\u{b7}' || c == '\u{2191}' || c == '\u{2211}'
        || c == '\u{220f}'
}

/// Whether the fragment holds a rejected operator character anywhere.
pub open spec fn has_bad_char(s: Seq<char>) -> bool {
    exists|i: int| 0 <= i < s.len() && is_bad_char(#[trigger] s[i])
}

/// A character that may appear in an identifier run.
pub open spec fn is_ident_char(c: char) -> bool {
    is_alnum_char(c) || c == '_' || c == '.'
}

/// The end of the maximal digit run starting at `i`.
pub open spec fn digit_run_end(s: Seq<char>, i: int) -> int
    decreases s.len() - i,
{
    if i < 0 || i >= s.len() || !is_digit_char(s[i]) {
        i
    } else {
        digit_run_end(s, i + 1)
    }
}

/// The end of the maximal identifier run starting at `i`.
pub open spec fn ident_run_end(s: Seq<char>, i: int) -> int
    decreases s.len() - i,
{
    if i < 0 || i >= s.len() || !is_ident_char(s[i]) {
        i
    } else {
        ident_run_end(s, i + 1)
    }
}

proof fn lemma_digit_run_end(s: Seq<char>, i: int)
    requires
        0 <= i <= s.len(),
    ensures
        i <= digit_run_end(s, i) <= s.len(),
        i < s.len() && is_digit_char(s[i]) ==> digit_run_end(s, i) > i,
    decreases s.len() - i,
{
    if i < s.len() && is_digit_char(s[i]) {
        lemma_digit_run_end(s, i + 1);
    }
}

proof fn lemma_ident_run_end(s: Seq<char>, i: int)
    requires
        0 <= i <= s.len(),
    ensures
        i <= ident_run_end(s, i) <= s.len(),
        i < s.len() && is_ident_char(s[i]) ==> ident_run_end(s, i) > i,
    decreases s.len() - i,
{
    if i < s.len() && is_ident_char(s[i]) {
        lemma_ident_run_end(s, i + 1);
    }
}

/// A maximal scan that saw digits on `[i, j)` and stopped at `j` ends the
/// run exactly at `j`.
proof fn lemma_digit_run_end_is(s: Seq<char>, i: int, j: int)
    requires
        0 <= i <= j <= s.len(),
        forall|t: int| i <= t < j ==> is_digit_char(#[trigger] s[t]),
        j < s.len() ==> !is_digit_char(s[j]),
    ensures
        digit_run_end(s, i) == j,
    decreases j - i,
{
    if i < j {
        lemma_digit_run_end_is(s, i + 1, j);
    }
}

proof fn lemma_ident_run_end_is(s: Seq<char>, i: int, j: int)
    requires
        0 <= i <= j <= s.len(),
        forall|t: int| i <= t < j ==> is_ident_char(#[trigger] s[t]),
        j < s.len() ==> !is_ident_char(s[j]),
    ensures
        ident_run_end(s, i) == j,
    decreases j - i,
{
    if i < j {
        lemma_ident_run_end_is(s, i + 1, j);
    }
}

/// The value of the decimal digit run `s[i..j]`.
pub open spec fn digits_val(s: Seq<char>, i: int, j: int) -> int
    decreases j - i,
{
    if j <= i {
        0
    } else {
        digits_val(s, i, j - 1) * 10 + (s[j - 1] as u32 - 48)
    }
}

/// The value a digit run folds in: its decimal value, saturated at the
/// representable bound.
pub open spec fn lit_val(s: Seq<char>, i: int, j: int) -> int {
    if digits_val(s, i, j) > i64::MAX {
        i64::MAX as int
    } else {
        digits_val(s, i, j)
    }
}

proof fn lemma_digits_val_bounds(s: Seq<char>, i: int, j: int)
    requires
        0 <= i <= j <= s.len(),
        forall|t: int| i <= t < j ==> is_digit_char(#[trigger] s[t]),
    ensures
        digits_val(s, i, j) >= 0,
    decreases j - i,
{
    if j > i {
        lemma_digits_val_bounds(s, i, j - 1);
        assert(digits_val(s, i, j - 1) * 10 >= 0) by (nonlinear_arith)
            requires
                digits_val(s, i, j - 1) >= 0,
        ;
    }
}

/// Appending digits never shrinks the value of a run.
proof fn lemma_digits_val_monotone(s: Seq<char>, i: int, j1: int, j2: int)
    requires
        0 <= i <= j1 <= j2 <= s.len(),
        forall|t: int| i <= t < j2 ==> is_digit_char(#[trigger] s[t]),
    ensures
        digits_val(s, i, j1) <= digits_val(s, i, j2),
    decreases j2 - j1,
{
    if j1 < j2 {
        lemma_digits_val_monotone(s, i, j1, j2 - 1);
        lemma_digits_val_bounds(s, i, j2 - 1);
        assert(digits_val(s, i, j2 - 1) * 10 >= digits_val(s, i, j2 - 1)) by (nonlinear_arith)
            requires
                digits_val(s, i, j2 - 1) >= 0,
        ;
    }
}

/// Lexicographic order on names, by code point: the order in which the
/// coefficient map stores its keys.
pub open spec fn seq_lt(a: Seq<char>, b: Seq<char>) -> bool
    decreases a.len(),
{
    if b.len() == 0 {
        false
    } else if a.len() == 0 {
        true
    } else if a[0] != b[0] {
        (a[0] as int) < (b[0] as int)
    } else {
        seq_lt(a.drop_first(), b.drop_first())
    }
}

/// The order is total: two names are ordered one way, the other way, or
/// equal, and never two of these at once.
pub proof fn lemma_seq_lt_trichotomy(a: Seq<char>, b: Seq<char>)
    ensures
        seq_lt(a, b) || seq_lt(b, a) || a == b,
        !(seq_lt(a, b) && seq_lt(b, a)),
        !(seq_lt(a, b) && a == b),
    decreases a.len(),
{
    if a.len() == 0 && b.len() == 0 {
        assert(a =~= b);
    } else if a.len() > 0 && b.len() > 0 && a[0] != b[0] {
        assert((a[0] as int) < (b[0] as int) || (b[0] as int) < (a[0] as int));
    } else if a.len() > 0 && b.len() > 0 && a[0] == b[0] {
        lemma_seq_lt_trichotomy(a.drop_first(), b.drop_first());
        if a.drop_first() == b.drop_first() {
            assert forall|i: int| 0 <= i < a.len() implies a[i] == b[i] by {
                if i > 0 {
                    assert(a.drop_first()[i - 1] == b.drop_first()[i - 1]);
                }
            }
            assert(a =~= b);
        }
        if a == b {
            assert(a.drop_first() =~= b.drop_first());
        }
    }
}

/// The order is transitive.
pub proof fn lemma_seq_lt_trans(a: Seq<char>, b: Seq<char>, c: Seq<char>)
    requires
        seq_lt(a, b),
        seq_lt(b, c),
    ensures
        seq_lt(a, c),
    decreases a.len(),
{
    if a.len() > 0 && b.len() > 0 && a[0] == b[0] && c.len() > 0 && b[0] == c[0] {
        lemma_seq_lt_trans(a.drop_first(), b.drop_first(), c.drop_first());
    }
}

/// The coefficient-map model: an association list from sanitized names to
/// coefficients, with unique keys in ascending name order.
pub open spec fn assoc_has(m: Seq<(Seq<char>, int)>, k: Seq<char>) -> bool {
    exists|i: int| 0 <= i < m.len() && (#[trigger] m[i]).0 == k
}

/// The index of the first entry carrying key `k`.
pub open spec fn first_key_index(m: Seq<(Seq<char>, int)>, k: Seq<char>) -> int
    decreases m.len(),
{
    if m.len() == 0 {
        0
    } else if m[0].0 == k {
        0
    } else {
        1 + first_key_index(m.drop_first(), k)
    }
}

proof fn lemma_first_key_index(m: Seq<(Seq<char>, int)>, k: Seq<char>, j: int)
    requires
        0 <= j < m.len(),
        m[j].0 == k,
        forall|t: int| 0 <= t < j ==> (#[trigger] m[t]).0 != k,
    ensures
        assoc_has(m, k),
        first_key_index(m, k) == j,
    decreases j,
{
    if j > 0 {
        lemma_first_key_index(m.drop_first(), k, j - 1);
    }
}

/// The position at which a fresh key `k` enters the ascending key order.
pub open spec fn insert_pos(m: Seq<(Seq<char>, int)>, k: Seq<char>) -> int
    decreases m.len(),
{
    if m.len() == 0 {
        0
    } else if seq_lt(m[0].0, k) {
        1 + insert_pos(m.drop_first(), k)
    } else {
        0
    }
}

proof fn lemma_insert_pos_is(m: Seq<(Seq<char>, int)>, k: Seq<char>, j: int)
    requires
        0 <= j <= m.len(),
        forall|t: int| 0 <= t < j ==> seq_lt((#[trigger] m[t]).0, k),
        j < m.len() ==> !seq_lt(m[j].0, k),
    ensures
        insert_pos(m, k) == j,
    decreases j,
{
    if j > 0 {
        lemma_insert_pos_is(m.drop_first(), k, j - 1);
    }
}

/// Adding `d` (with saturation) to the coefficient of `k`: the entry for
/// `k` is updated in place, or a fresh entry enters at its ordered
/// position.
pub open spec fn assoc_bump(m: Seq<(Seq<char>, int)>, k: Seq<char>, d: int) -> Seq<
    (Seq<char>, int),
> {
    if assoc_has(m, k) {
        let i = first_key_index(m, k);
        m.update(i, (k, sat_add_i64(m[i].1, d)))
    } else {
        m.insert(insert_pos(m, k), (k, sat_add_i64(0, d)))
    }
}

/// One pass of the tokenizer from position `i` with the given sign
/// register and accumulated state; the model of the parsing loop.
pub open spec fn parse_step(
    s: Seq<char>,
    i: int,
    sign: int,
    m: Seq<(Seq<char>, int)>,
    c0: int,
) -> Option<(Seq<(Seq<char>, int)>, int)>
    decreases s.len() - i,
    via parse_step_decreases
{
    if i < 0 || i >= s.len() {
        Some((m, c0))
    } else if is_space_char(s[i]) {
        parse_step(s, i + 1, sign, m, c0)
    } else if s[i] == '+' {
        parse_step(s, i + 1, 1, m, c0)
    } else if s[i] == '-' {
        parse_step(s, i + 1, -1, m, c0)
    } else if is_digit_char(s[i]) {
        let j = digit_run_end(s, i);
        parse_step(s, j, sign, m, sat_add_i64(c0, sign * lit_val(s, i, j)))
    } else if is_ident_char(s[i]) {
        let j = ident_run_end(s, i);
        let name = spec_sanitize(s.subrange(i, j));
        parse_step(s, j, sign, assoc_bump(m, name, sign), c0)
    } else {
        None
    }
}

#[via_fn]
proof fn parse_step_decreases(s: Seq<char>, i: int, sign: int, m: Seq<(Seq<char>, int)>, c0: int) {
    if 0 <= i < s.len() {
        if is_digit_char(s[i]) {
            lemma_digit_run_end(s, i);
        } else if is_ident_char(s[i]) {
            lemma_ident_run_end(s, i);
        }
    }
}

/// The whole-fragment parse: reject on any nonlinear operator character,
/// else one left-to-right tokenizing pass starting with a positive sign
/// and empty state.
pub open spec fn spec_parse_linear(s: Seq<char>) -> Option<(Seq<(Seq<char>, int)>, int)> {
    if has_bad_char(s) {
        None
    } else {
        parse_step(s, 0, 1, Seq::empty(), 0)
    }
}

/// A signed sum of variables and a constant: a coefficient for each
/// variable name, plus a constant term.
#[derive(Debug, Clone)]
pub struct LinearExpr {
    /// Variable name and coefficient, in ascending name order.
    pub coeffs: Vec<(String, i64)>,
    /// The constant term.
    pub c0: i64,
}

/// The model of a coefficient vector.
pub open spec fn entries_of(v: Seq<(String, i64)>) -> Seq<(Seq<char>, int)> {
    v.map_values(|p: (String, i64)| (p.0@, p.1 as int))
}

impl LinearExpr {
    /// The association-list model of this expression's coefficients.
    pub open spec fn entries(self) -> Seq<(Seq<char>, int)> {
        entries_of(self.coeffs@)
    }

    /// Well-formed: variable names stand in strictly ascending order
    /// (so in particular they are unique).
    pub open spec fn wf(self) -> bool {
        forall|i: int, j: int|
            0 <= i < j < self.coeffs@.len() ==> seq_lt(
                (#[trigger] self.coeffs@[i]).0@,
                (#[trigger] self.coeffs@[j]).0@,
            )
    }
}

/// Strictly ascending keys are distinct.
pub proof fn lemma_wf_keys_distinct(e: LinearExpr)
    requires
        e.wf(),
    ensures
        forall|i: int, j: int|
            0 <= i < j < e.coeffs@.len() ==> (#[trigger] e.coeffs@[i]).0@ != (
            #[trigger] e.coeffs@[j]).0@,
{
    assert forall|i: int, j: int|
        0 <= i < j < e.coeffs@.len() implies (#[trigger] e.coeffs@[i]).0@ != (
    #[trigger] e.coeffs@[j]).0@ by {
        lemma_seq_lt_trichotomy(e.coeffs@[i].0@, e.coeffs@[j].0@);
    }
}

/// Scans the maximal digit run of `s` starting at `start`.
fn scan_digit_run(s: &str, start: usize) -> (j: usize)
    requires
        start <= s@.len(),
    ensures
        j == digit_run_end(s@, start as int),
        start <= j <= s@.len(),
        forall|t: int| start <= t < j ==> is_digit_char(#[trigger] s@[t]),
        (start as int) < s@.len() && is_digit_char(s@[start as int]) ==> j > start,
{
    proof {
        lemma_digit_run_end(s@, start as int);
    }
    let n = s.unicode_len();
    let mut j = start;
    while j < n && is_dec_digit(s.get_char(j))
        invariant
            start <= j <= n == s@.len(),
            forall|t: int| start <= t < j ==> is_digit_char(#[trigger] s@[t]),
        decreases n - j,
    {
        j = j + 1;
    }
    proof {
        lemma_digit_run_end_is(s@, start as int, j as int);
    }
    j
}

/// Scans the maximal identifier run of `s` starting at `start`.
fn scan_ident_run(s: &str, start: usize) -> (j: usize)
    requires
        start <= s@.len(),
    ensures
        j == ident_run_end(s@, start as int),
        start <= j <= s@.len(),
        forall|t: int| start <= t < j ==> is_ident_char(#[trigger] s@[t]),
        (start as int) < s@.len() && is_ident_char(s@[start as int]) ==> j > start,
{
    proof {
        lemma_ident_run_end(s@, start as int);
    }
    let n = s.unicode_len();
    let mut j = start;
    while j < n && is_ident_c(s.get_char(j))
        invariant
            start <= j <= n == s@.len(),
            forall|t: int| start <= t < j ==> is_ident_char(#[trigger] s@[t]),
        decreases n - j,
    {
        j = j + 1;
    }
    proof {
        lemma_ident_run_end_is(s@, start as int, j as int);
    }
    j
}

/// Decides `is_ident_char`.
fn is_ident_c(c: char) -> (r: bool)
    ensures
        r == is_ident_char(c),
{
    c.is_alphanumeric() || c == '_' || c == '.'
}

/// Parses the decimal digit run `s[start..end]` as an `i64`, saturating
/// at the representable bound.
fn parse_digit_run(s: &str, start: usize, end: usize) -> (r: i64)
    requires
        start <= end <= s@.len(),
        forall|t: int| start <= t < end ==> is_digit_char(#[trigger] s@[t]),
    ensures
        0 <= r,
        r as int == lit_val(s@, start as int, end as int),
{
    let mut acc: i64 = 0;
    let mut k = start;
    proof {
        lemma_digits_val_bounds(s@, start as int, end as int);
    }
    while k < end
        invariant
            start <= k <= end <= s@.len(),
            forall|t: int| start <= t < end ==> is_digit_char(#[trigger] s@[t]),
            0 <= acc as int == digits_val(s@, start as int, k as int),
        decreases end - k,
    {
        let c = s.get_char(k);
        let d: i64 = (c as u32 - 48) as i64;
        assert(0 <= d <= 9);
        if acc > (i64::MAX - d) / 10 {
            proof {
                let m = i64::MAX as int;
                assert(digits_val(s@, start as int, k as int + 1) == acc as int * 10 + d as int);
                assert(acc as int * 10 + d as int > m) by (nonlinear_arith)
                    requires
                        acc as int > (m - d as int) / 10,
                        0 <= d as int <= 9,
                        acc as int >= 0,
                        m == i64::MAX as int,
                ;
                lemma_digits_val_monotone(s@, start as int, k as int + 1, end as int);
            }
            return i64::MAX;
        }
        proof {
            let m = i64::MAX as int;
            assert(acc as int * 10 + d as int <= m) by (nonlinear_arith)
                requires
                    acc as int <= (m - d as int) / 10,
                    0 <= d as int <= 9,
                    acc as int >= 0,
                    m == i64::MAX as int,
            ;
            assert(acc as int * 10 >= 0) by (nonlinear_arith)
                requires
                    acc as int >= 0,
            ;
        }
        acc = acc * 10 + d;
        k = k + 1;
    }
    acc
}

/// Adds `delta` (with saturation) to the coefficient of `name`,
/// appending a fresh entry when the name is new.
fn bump_coeff(coeffs: &mut Vec<(String, i64)>, name: String, delta: i64)
    requires
        forall|i: int, j: int|
            0 <= i < j < old(coeffs)@.len() ==> seq_lt(
                (#[trigger] old(coeffs)@[i]).0@,
                (#[trigger] old(coeffs)@[j]).0@,
            ),
    ensures
        entries_of(final(coeffs)@) == assoc_bump(entries_of(old(coeffs)@), name@, delta as int),
        forall|i: int, j: int|
            0 <= i < j < final(coeffs)@.len() ==> seq_lt(
                (#[trigger] final(coeffs)@[i]).0@,
                (#[trigger] final(coeffs)@[j]).0@,
            ),
{
    let ghost m = entries_of(old(coeffs)@);
    let n = coeffs.len();
    let mut k: usize = 0;
    while k < n && str_lt(coeffs[k].0.as_str(), name.as_str())
        invariant
            k <= n == coeffs@.len(),
            coeffs@ == old(coeffs)@,
            m == entries_of(coeffs@),
            forall|t: int| 0 <= t < k ==> seq_lt((#[trigger] coeffs@[t]).0@, name@),
            forall|p: int, q: int|
                0 <= p < q < old(coeffs)@.len() ==> seq_lt(
                    (#[trigger] old(coeffs)@[p]).0@,
                    (#[trigger] old(coeffs)@[q]).0@,
                ),
        decreases n - k,
    {
        k = k + 1;
    }
    if k < n && coeffs[k].0 == name {
        let old_v = coeffs[k].1;
        let newv = sat_add(old_v, delta);
        let entry = coeffs.remove(k);
        coeffs.insert(k, (entry.0, newv));
        proof {
            assert forall|t: int| 0 <= t < k implies (#[trigger] m[t]).0 != name@ by {
                lemma_seq_lt_trichotomy(m[t].0, name@);
            }
            lemma_first_key_index(m, name@, k as int);
            assert(coeffs@ =~= old(coeffs)@.update(k as int, coeffs@[k as int]));
            assert(entries_of(coeffs@) =~= assoc_bump(m, name@, delta as int));
            assert(forall|t: int|
                0 <= t < coeffs@.len() ==> (#[trigger] coeffs@[t]).0 == old(coeffs)@[t].0);
            assert forall|p: int, q: int|
                0 <= p < q < coeffs@.len() implies seq_lt(
                (#[trigger] coeffs@[p]).0@,
                (#[trigger] coeffs@[q]).0@,
            ) by {
                assert(coeffs@[p].0 == old(coeffs)@[p].0);
                assert(coeffs@[q].0 == old(coeffs)@[q].0);
            }
        }
        return ;
    }
    proof {
        if k < n {
            lemma_seq_lt_trichotomy(coeffs@[k as int].0@, name@);
            assert(seq_lt(name@, coeffs@[k as int].0@));
        }
        assert forall|t: int| 0 <= t < n implies (#[trigger] m[t]).0 != name@ by {
            if t < k {
                lemma_seq_lt_trichotomy(m[t].0, name@);
            } else if t > k {
                lemma_seq_lt_trans(name@, coeffs@[k as int].0@, coeffs@[t].0@);
                lemma_seq_lt_trichotomy(name@, m[t].0);
            }
        }
        assert(!assoc_has(m, name@));
        lemma_insert_pos_is(m, name@, k as int);
    }
    coeffs.insert(k, (name, sat_add(0, delta)));
    proof {
        assert(entries_of(coeffs@) =~= assoc_bump(m, name@, delta as int));
        assert forall|p: int, q: int|
            0 <= p < q < coeffs@.len() implies seq_lt(
            (#[trigger] coeffs@[p]).0@,
            (#[trigger] coeffs@[q]).0@,
        ) by {
            if p == k as int && q > k as int + 1 {
                lemma_seq_lt_trans(
                    coeffs@[k as int].0@,
                    old(coeffs)@[k as int].0@,
                    old(coeffs)@[q - 1].0@,
                );
            }
        }
    }
}

/// Decides the stored name order.
fn str_lt(a: &str, b: &str) -> (r: bool)
    ensures
        r == seq_lt(a@, b@),
{
    let na = a.unicode_len();
    let nb = b.unicode_len();
    let mut i: usize = 0;
    while i < na && i < nb && a.get_char(i) == b.get_char(i)
        invariant
            i <= na == a@.len(),
            i <= nb == b@.len(),
            forall|t: int| 0 <= t < i ==> a@[t] == b@[t],
        decreases na - i,
    {
        i = i + 1;
    }
    let r = if i < na && i < nb {
        a.get_char(i) < b.get_char(i)
    } else {
        i < nb
    };
    proof {
        lemma_seq_lt_at(a@, b@, i as int);
    }
    r
}

/// Names agreeing up to position `i` and parting there (or ending) are
/// ordered by what stands at `i`.
proof fn lemma_seq_lt_at(a: Seq<char>, b: Seq<char>, i: int)
    requires
        0 <= i <= a.len(),
        i <= b.len(),
        forall|t: int| 0 <= t < i ==> a[t] == b[t],
        i < a.len() && i < b.len() ==> a[i] != b[i],
    ensures
        seq_lt(a, b) == (if i < a.len() && i < b.len() {
            (a[i] as int) < (b[i] as int)
        } else {
            i < b.len()
        }),
    decreases i,
{
    if i > 0 {
        lemma_seq_lt_at(a.drop_first(), b.drop_first(), i - 1);
    }
}

/// Parses a restricted arithmetic fragment into a `LinearExpr`: rejects
/// the whole fragment on any nonlinear operator character; otherwise one
/// left-to-right pass folds literals into the constant (saturating) and
/// signs into per-variable coefficients, and any other unexpected
/// character aborts the parse.
pub fn parse_linear_expr_int(s: &str) -> (r: Option<LinearExpr>)
    ensures
        match r {
            Some(e) => e.wf() && spec_parse_linear(s@) == Some((e.entries(), e.c0 as int)),
            None => spec_parse_linear(s@) is None,
        },
{
    let n = s.unicode_len();
    let mut i: usize = 0;
    while i < n
        invariant
            i <= n == s@.len(),
            forall|t: int| 0 <= t < i ==> !is_bad_char(#[trigger] s@[t]),
        decreases n - i,
    {
        let c = s.get_char(i);
        if c == '*' || c == '/' || c == '^' || c == '\u{b7}' || c == '\u{2191}' || c == '\u{2211}'
            || c == '\u{220f}' {
            return None;
        }
        i = i + 1;
    }
    assert(!has_bad_char(s@));

    let mut coeffs: Vec<(String, i64)> = Vec::new();
    let mut c0: i64 = 0;
    let mut sign: i64 = 1;
    let mut i: usize = 0;
    proof {
        assert(entries_of(coeffs@) =~= Seq::<(Seq<char>, int)>::empty());
    }
    while i < n
        invariant
            i <= n == s@.len(),
            !has_bad_char(s@),
            sign == 1 || sign == -1,
            forall|p: int, q: int|
                0 <= p < q < coeffs@.len() ==> seq_lt(
                    (#[trigger] coeffs@[p]).0@,
                    (#[trigger] coeffs@[q]).0@,
                ),
            parse_step(s@, i as int, sign as int, entries_of(coeffs@), c0 as int) == parse_step(
                s@,
                0,
                1,
                Seq::<(Seq<char>, int)>::empty(),
                0,
            ),
        decreases n - i,
    {
        let c = s.get_char(i);
        if c.is_whitespace() {
            i = i + 1;
        } else if c == '+' {
            sign = 1;
            i = i + 1;
        } else if c == '-' {
            sign = -1;
            i = i + 1;
        } else if is_dec_digit(c) {
            let j = scan_digit_run(s, i);
            let v = parse_digit_run(s, i, j);
            let delta: i64 = if sign == 1 {
                v
            } else {
                -v
            };
            assert(delta as int == sign as int * v as int);
            c0 = sat_add(c0, delta);
            i = j;
        } else if is_ident_c(c) {
            let j = scan_ident_run(s, i);
            let raw = s.substring_char(i, j);
            let name = sanitize_name(raw);
            bump_coeff(&mut coeffs, name, sign);
            i = j;
        } else {
            return None;
        }
    }
    Some(LinearExpr { coeffs, c0 })
}

} // verus!
