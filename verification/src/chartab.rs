//! Character classification used by the parsers.
//!
//! The parsers follow Rust's `char` classification: ASCII behaviour is
//! stated exactly, and the classes beyond ASCII are given opaque names,
//! since spelling out the Unicode tables would prove nothing.

use vstd::prelude::*;

verus! {

/// What `char::is_alphanumeric` answers for a character beyond ASCII.
pub uninterp spec fn unicode_alnum(c: char) -> bool;

/// What `char::is_whitespace` answers for a character beyond ASCII.
pub uninterp spec fn unicode_space(c: char) -> bool;

/// The class accepted by `char::is_alphanumeric`: ASCII digits and
/// letters exactly; beyond ASCII, the Unicode alphanumeric class.
pub open spec fn is_alnum_char(c: char) -> bool {
    (48 <= c as u32 && c as u32 <= 57) || (65 <= c as u32 && c as u32 <= 90) || (97 <= c as u32
        && c as u32 <= 122) || (c as u32 > 127 && unicode_alnum(c))
}

/// The class accepted by `char::is_whitespace`: ASCII space and the five
/// ASCII control whitespace characters exactly; beyond ASCII, the Unicode
/// whitespace class.
pub open spec fn is_space_char(c: char) -> bool {
    c as u32 == 32 || (9 <= c as u32 && c as u32 <= 13) || (c as u32 > 127 && unicode_space(c))
}

/// Relies on `char::is_alphanumeric`: within ASCII it accepts exactly the
/// digits and letters; its behaviour beyond ASCII depends on the character
/// alone and is named `unicode_alnum`.
pub assume_specification[ char::is_alphanumeric ](c: char) -> (r: bool)
    ensures
        r == is_alnum_char(c),
        c as u32 > 127 ==> r == unicode_alnum(c),
;

/// Relies on `char::is_whitespace`: within ASCII it accepts exactly the
/// space and the control characters 9 through 13; its behaviour beyond
/// ASCII depends on the character alone and is named `unicode_space`.
pub assume_specification[ char::is_whitespace ](c: char) -> (r: bool)
    ensures
        r == is_space_char(c),
        c as u32 > 127 ==> r == unicode_space(c),
;

/// A decimal digit, `0` through `9`.
pub open spec fn is_digit_char(c: char) -> bool {
    48 <= c as u32 && c as u32 <= 57
}

/// Decides `is_digit_char`.
pub fn is_dec_digit(c: char) -> (r: bool)
    ensures
        r == is_digit_char(c),
{
    let u = c as u32;
    48 <= u && u <= 57
}

/// The first index at or after `i` holding a non-whitespace character.
pub open spec fn trim_start_idx(s: Seq<char>, i: int) -> int
    decreases s.len() - i,
{
    if i < 0 || i >= s.len() || !is_space_char(s[i]) {
        i
    } else {
        trim_start_idx(s, i + 1)
    }
}

/// The end of `s` once trailing whitespace before `j` is dropped.
pub open spec fn trim_end_idx(s: Seq<char>, j: int) -> int
    decreases j,
{
    if j <= 0 || j > s.len() || !is_space_char(s[j - 1]) {
        j
    } else {
        trim_end_idx(s, j - 1)
    }
}

/// `s` with leading and trailing whitespace removed.
pub open spec fn spec_trim(s: Seq<char>) -> Seq<char> {
    let a = trim_start_idx(s, 0);
    let b = trim_end_idx(s, s.len() as int);
    if a <= b {
        s.subrange(a, b)
    } else {
        Seq::empty()
    }
}

/// A scan that saw whitespace on `[i, a)` and stopped at `a` gives the
/// start of the trimmed range.
pub proof fn lemma_trim_start_is(s: Seq<char>, i: int, a: int)
    requires
        0 <= i <= a <= s.len(),
        forall|t: int| i <= t < a ==> is_space_char(#[trigger] s[t]),
        a < s.len() ==> !is_space_char(s[a]),
    ensures
        trim_start_idx(s, i) == a,
    decreases a - i,
{
    if i < a {
        lemma_trim_start_is(s, i + 1, a);
    }
}

/// A scan that saw whitespace on `[b, j)` and stopped at `b` gives the
/// end of the trimmed range.
pub proof fn lemma_trim_end_is(s: Seq<char>, b: int, j: int)
    requires
        0 <= b <= j <= s.len(),
        forall|t: int| b <= t < j ==> is_space_char(#[trigger] s[t]),
        b > 0 ==> !is_space_char(s[b - 1]),
    ensures
        trim_end_idx(s, j) == b,
    decreases j - b,
{
    if b < j {
        lemma_trim_end_is(s, b, j - 1);
    }
}

/// Removes leading and trailing whitespace.
pub fn trim_str<'a>(s: &'a str) -> (r: &'a str)
    ensures
        r@ == spec_trim(s@),
{
    let n = s.unicode_len();
    let mut a: usize = 0;
    while a < n && s.get_char(a).is_whitespace()
        invariant
            a <= n == s@.len(),
            forall|t: int| 0 <= t < a ==> is_space_char(#[trigger] s@[t]),
        decreases n - a,
    {
        a = a + 1;
    }
    proof {
        lemma_trim_start_is(s@, 0, a as int);
    }
    let mut b: usize = n;
    while b > 0 && s.get_char(b - 1).is_whitespace()
        invariant
            b <= n == s@.len(),
            forall|t: int| b <= t < n ==> is_space_char(#[trigger] s@[t]),
        decreases b,
    {
        b = b - 1;
    }
    proof {
        lemma_trim_end_is(s@, b as int, n as int);
    }
    if a <= b {
        s.substring_char(a, b)
    } else {
        let r = s.substring_char(0, 0);
        proof {
            assert(r@ =~= Seq::<char>::empty());
        }
        r
    }
}

} // verus!
