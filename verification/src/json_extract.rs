//! Best-effort extraction of a JSON value from unstructured text:
//! prefer a fenced JSON block, else fall back to the first
//! balanced-looking brace span.

use vstd::prelude::*;
use crate::chartab::{spec_trim, trim_str};
use crate::rel::{spec_find, find_chars};

verus! {

#[verifier::external_type_specification]
#[verifier::external_body]
pub struct ExValue(serde_json::Value);

/// Whether a text parses as a JSON value; the answer depends on the
/// text alone.
pub uninterp spec fn json_accepts(s: Seq<char>) -> bool;

/// Relies on `serde_json::from_str::<Value>`: whether the parse
/// succeeds is a function of the text alone, named `json_accepts`.
#[verifier::external_body]
fn json_from_str(s: &str) -> (r: Option<serde_json::Value>)
    ensures
        r is Some <==> json_accepts(s@),
{
    serde_json::from_str::<serde_json::Value>(s).ok()
}

/// The last occurrence of `c` strictly before position `j`.
pub open spec fn spec_rfind(s: Seq<char>, c: char, j: int) -> Option<int>
    decreases j,
{
    if j <= 0 || j > s.len() {
        None
    } else if s[j - 1] == c {
        Some(j - 1)
    } else {
        spec_rfind(s, c, j - 1)
    }
}

/// Finds the last occurrence of `c` in `s`.
fn rfind_char(s: &str, c: char) -> (r: Option<usize>)
    ensures
        (match r {
            Some(i) => spec_rfind(s@, c, s@.len() as int) == Some(i as int) && i < s@.len(),
            None => spec_rfind(s@, c, s@.len() as int) is None,
        }),
{
    let n = s.unicode_len();
    let mut j = n;
    while j > 0
        invariant
            j <= n == s@.len(),
            spec_rfind(s@, c, n as int) == spec_rfind(s@, c, j as int),
        decreases j,
    {
        if s.get_char(j - 1) == c {
            return Some(j - 1);
        }
        j = j - 1;
    }
    None
}

/// The candidate inside the first fenced JSON block: the trimmed text
/// between the opening fence and the next closing fence.
pub open spec fn fenced_candidate(s: Seq<char>) -> Option<Seq<char>> {
    match spec_find(s, seq!['`', '`', '`', 'j', 's', 'o', 'n'], 0) {
        None => None,
        Some(i) => {
            let rest = s.subrange(i + 7, s.len() as int);
            match spec_find(rest, seq!['`', '`', '`'], 0) {
                None => None,
                Some(j) => Some(spec_trim(rest.subrange(0, j))),
            }
        },
    }
}

/// The candidate of the brace fallback: the trimmed span from the first
/// `{` through the last `}`, provided the latter comes later.
pub open spec fn brace_candidate(s: Seq<char>) -> Option<Seq<char>> {
    match spec_find(s, seq!['{'], 0) {
        None => None,
        Some(i) => match spec_rfind(s, '}', s.len() as int) {
            None => None,
            Some(j) => if j <= i {
                None
            } else {
                Some(spec_trim(s.subrange(i, j + 1)))
            },
        },
    }
}

/// When extraction succeeds: the input, trimmed, is non-empty and
/// either its fenced candidate or its brace candidate parses as JSON.
pub open spec fn spec_extract_accepts(s: Seq<char>) -> bool {
    let t = spec_trim(s);
    t.len() > 0 && ((fenced_candidate(t) matches Some(c) && json_accepts(c)) || (brace_candidate(t)
        matches Some(c) && json_accepts(c)))
}

/// Extracts the first JSON value from unstructured text: a fenced JSON
/// block is preferred; otherwise the span from the first `{` to the
/// last `}` is tried.  `None` when neither candidate parses.
pub fn extract_first_json_value(s: &str) -> (r: Option<serde_json::Value>)
    ensures
        r is Some <==> spec_extract_accepts(s@),
{
    let t = trim_str(s);
    let n = t.unicode_len();
    if n == 0 {
        return None;
    }
    let fence_open: Vec<char> = vec!['`', '`', '`', 'j', 's', 'o', 'n'];
    let fence_close: Vec<char> = vec!['`', '`', '`'];
    proof {
        assert(fence_open@ =~= seq!['`', '`', '`', 'j', 's', 'o', 'n']);
        assert(fence_close@ =~= seq!['`', '`', '`']);
    }
    match find_chars(t, &fence_open) {
        None => {},
        Some(i) => {
            let rest = t.substring_char(i + 7, n);
            match find_chars(rest, &fence_close) {
                None => {},
                Some(j) => {
                    let cand = trim_str(rest.substring_char(0, j));
                    match json_from_str(cand) {
                        Some(v) => {
                            return Some(v);
                        },
                        None => {},
                    }
                },
            }
        },
    }
    let open_brace: Vec<char> = vec!['{'];
    proof {
        assert(open_brace@ =~= seq!['{']);
    }
    let i = match find_chars(t, &open_brace) {
        Some(i) => i,
        None => {
            return None;
        },
    };
    let j = match rfind_char(t, '}') {
        Some(j) => j,
        None => {
            return None;
        },
    };
    if j <= i {
        return None;
    }
    let cand = trim_str(t.substring_char(i, j + 1));
    json_from_str(cand)
}

} // verus!
