//! Normalizes arbitrary text fragments into valid symbolic identifiers.

use vstd::prelude::*;
use crate::chartab::{is_alnum_char, is_digit_char, is_dec_digit};

verus! {

/// One character of a sanitized name: alphanumerics and underscores are
/// kept, everything else becomes an underscore.
pub open spec fn sanitize_char(c: char) -> char {
    if is_alnum_char(c) || c == '_' {
        c
    } else {
        '_'
    }
}

/// The character-by-character replacement pass of the sanitizer.
pub open spec fn sanitized_chars(s: Seq<char>) -> Seq<char> {
    s.map_values(|c: char| sanitize_char(c))
}

/// The sanitized form of a fragment: replace every character that is not
/// alphanumeric or an underscore with an underscore; an empty result
/// becomes the fallback `x`; a result that starts with a decimal digit
/// gets an underscore prepended.
pub open spec fn spec_sanitize(s: Seq<char>) -> Seq<char> {
    let base = if sanitized_chars(s).len() == 0 {
        seq!['x']
    } else {
        sanitized_chars(s)
    };
    if is_digit_char(base[0]) {
        seq!['_'] + base
    } else {
        base
    }
}

/// Normalizes an arbitrary fragment into a valid symbolic name.
pub fn sanitize_name(s: &str) -> (out: String)
    ensures
        out@ == spec_sanitize(s@),
{
    let n = s.unicode_len();
    let mut buf = String::new();
    let mut i: usize = 0;
    while i < n
        invariant
            n == s@.len(),
            i <= n,
            buf@ == sanitized_chars(s@).take(i as int),
        decreases n - i,
    {
        let c = s.get_char(i);
        if c.is_alphanumeric() || c == '_' {
            let piece = s.substring_char(i, i + 1);
            buf.append(piece);
        } else {
            buf.append("_");
            proof {
                reveal_strlit("_");
            }
        }
        proof {
            assert(sanitized_chars(s@).take(i + 1) =~= sanitized_chars(s@).take(i as int).push(
                sanitize_char(s@[i as int])));
        }
        i = i + 1;
    }
    proof {
        assert(buf@ =~= sanitized_chars(s@));
    }
    if buf.unicode_len() == 0 {
        let fallback = String::from_str("x");
        proof {
            reveal_strlit("x");
            assert(fallback@ =~= seq!['x']);
        }
        return fallback;
    }
    let first = buf.as_str().get_char(0);
    if is_dec_digit(first) {
        let mut out = String::from_str("_");
        proof {
            reveal_strlit("_");
        }
        out.append(buf.as_str());
        proof {
            assert(out@ =~= seq!['_'] + sanitized_chars(s@));
        }
        out
    } else {
        buf
    }
}

/// Law: for every input, the sanitized form is non-empty, never starts
/// with a decimal digit, and every character of it is alphanumeric or an
/// underscore.
pub proof fn lemma_sanitize_wellformed(s: Seq<char>)
    ensures
        spec_sanitize(s).len() > 0,
        !is_digit_char(spec_sanitize(s)[0]),
        forall|i: int|
            0 <= i < spec_sanitize(s).len() ==> is_alnum_char(#[trigger] spec_sanitize(s)[i])
                || spec_sanitize(s)[i] == '_',
{
    let base = if sanitized_chars(s).len() == 0 {
        seq!['x']
    } else {
        sanitized_chars(s)
    };
    assert(forall|i: int|
        0 <= i < base.len() ==> is_alnum_char(#[trigger] base[i]) || base[i] == '_');
}

/// Law: sanitizing an already-sanitized name returns it unchanged; that
/// is, the sanitizer is idempotent.
pub proof fn lemma_sanitize_idempotent(s: Seq<char>)
    ensures
        spec_sanitize(spec_sanitize(s)) == spec_sanitize(s),
{
    let t = spec_sanitize(s);
    lemma_sanitize_wellformed(s);
    assert(sanitized_chars(t) =~= t);
    assert(spec_sanitize(t) =~= t);
}

} // verus!
