//! Recognizes `name : type` hypothesis lines and classifies the
//! variable's numeric domain.

use vstd::prelude::*;
use crate::chartab::{spec_trim, trim_str};
use crate::rel::{spec_find, find_chars};
use crate::sanitize::{spec_sanitize, sanitize_name};

verus! {

/// The numeric domain of a declared variable.  A natural carries an
/// implicit non-negativity constraint when encoded.
#[derive(Debug, Clone, Copy, PartialEq, Eq, Structural)]
pub enum VarKind {
    /// An integer, unconstrained.
    Int,
    /// A natural number, encoded as an integer at least zero.
    Nat,
}

/// The pattern `p` occurs somewhere in `s`.
pub open spec fn contains_seq(s: Seq<char>, p: Seq<char>) -> bool {
    spec_find(s, p, 0) is Some
}

/// The domain read off a type text: the natural-number markers win over
/// the integer markers, and anything else classifies nothing.
pub open spec fn spec_decl_kind(ty: Seq<char>) -> Option<VarKind> {
    if contains_seq(ty, seq!['\u{2115}']) || contains_seq(ty, seq!['N', 'a', 't']) {
        Some(VarKind::Nat)
    } else if contains_seq(ty, seq!['\u{2124}']) || contains_seq(ty, seq!['I', 'n', 't']) {
        Some(VarKind::Int)
    } else {
        None
    }
}

/// The parse of one hypothesis line: split at the first `:`, trim both
/// sides, fail on an empty side or an unrecognized domain, and sanitize
/// the name.
pub open spec fn spec_extract_decl(s: Seq<char>) -> Option<(Seq<char>, VarKind)> {
    match spec_find(s, seq![':'], 0) {
        None => None,
        Some(i) => {
            let name = spec_trim(s.subrange(0, i));
            let ty = spec_trim(s.subrange(i + 1, s.len() as int));
            if name.len() == 0 || ty.len() == 0 {
                None
            } else {
                match spec_decl_kind(ty) {
                    None => None,
                    Some(k) => Some((spec_sanitize(name), k)),
                }
            }
        },
    }
}

/// Recognizes a `name : type` declaration and classifies its domain;
/// the returned name is sanitized.
pub fn extract_decl_kind(hyp_text: &str) -> (r: Option<(String, VarKind)>)
    ensures
        (match r {
            Some(p) => spec_extract_decl(hyp_text@) == Some((p.0@, p.1)),
            None => spec_extract_decl(hyp_text@) is None,
        }),
{
    let n = hyp_text.unicode_len();
    let colon: Vec<char> = vec![':'];
    proof {
        assert(colon@ =~= seq![':']);
    }
    let i = match find_chars(hyp_text, &colon) {
        Some(i) => i,
        None => {
            return None;
        },
    };
    let name_part = hyp_text.substring_char(0, i);
    let ty_part = hyp_text.substring_char(i + 1, n);
    let name = trim_str(name_part);
    let ty = trim_str(ty_part);
    if name.unicode_len() == 0 || ty.unicode_len() == 0 {
        return None;
    }
    let nat_glyph: Vec<char> = vec!['\u{2115}'];
    let nat_word: Vec<char> = vec!['N', 'a', 't'];
    let int_glyph: Vec<char> = vec!['\u{2124}'];
    let int_word: Vec<char> = vec!['I', 'n', 't'];
    proof {
        assert(nat_glyph@ =~= seq!['\u{2115}']);
        assert(nat_word@ =~= seq!['N', 'a', 't']);
        assert(int_glyph@ =~= seq!['\u{2124}']);
        assert(int_word@ =~= seq!['I', 'n', 't']);
    }
    let is_nat = find_chars(ty, &nat_glyph).is_some() || find_chars(ty, &nat_word).is_some();
    if is_nat {
        Some((sanitize_name(name), VarKind::Nat))
    } else {
        let is_int = find_chars(ty, &int_glyph).is_some() || find_chars(ty, &int_word).is_some();
        if is_int {
            Some((sanitize_name(name), VarKind::Int))
        } else {
            None
        }
    }
}

} // verus!
