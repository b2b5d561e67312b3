//! Scanning primitives over character sequences: character classes,
//! maximal runs and literal matches.

use vstd::prelude::*;
use crate::text::{chars_of, occurs_at, occurs_at_exec};

verus! {

/// The character classes the grammars scan runs of.
#[derive(Clone, Copy)]
pub enum CharClass {
    /// Space, tab, carriage return, line feed.
    Multispace,
    /// Space and tab.
    Space,
    /// ASCII letters and digits.
    Alnum,
    /// Anything but carriage return and line feed.
    NotLineEnd,
    /// Anything but a double quote.
    NotQuote,
    /// Anything but a closing parenthesis.
    NotCloseParen,
    /// Anything but `(`, line feed, carriage return, space and `:`.
    NameChar,
}

pub open spec fn in_class(k: CharClass, c: char) -> bool {
    match k {
        CharClass::Multispace => c == ' ' || c == '\t' || c == '\r' || c == '\n',
        CharClass::Space => c == ' ' || c == '\t',
        CharClass::Alnum => ('0' <= c && c <= '9') || ('a' <= c && c <= 'z') || ('A' <= c
            && c <= 'Z'),
        CharClass::NotLineEnd => c != '\r' && c != '\n',
        CharClass::NotQuote => c != '"',
        CharClass::NotCloseParen => c != ')',
        CharClass::NameChar => c != '(' && c != '\n' && c != '\r' && c != ' ' && c != ':',
    }
}

pub fn in_class_exec(k: CharClass, c: char) -> (r: bool)
    ensures
        r == in_class(k, c),
{
    match k {
        CharClass::Multispace => c == ' ' || c == '\t' || c == '\r' || c == '\n',
        CharClass::Space => c == ' ' || c == '\t',
        CharClass::Alnum => ('0' <= c && c <= '9') || ('a' <= c && c <= 'z') || ('A' <= c
            && c <= 'Z'),
        CharClass::NotLineEnd => c != '\r' && c != '\n',
        CharClass::NotQuote => c != '"',
        CharClass::NotCloseParen => c != ')',
        CharClass::NameChar => c != '(' && c != '\n' && c != '\r' && c != ' ' && c != ':',
    }
}

/// End of the maximal run of class `k` that starts at `i`.
pub open spec fn scan(s: Seq<char>, i: int, k: CharClass) -> int
    decreases s.len() - i,
{
    if 0 <= i < s.len() && in_class(k, s[i]) {
        scan(s, i + 1, k)
    } else {
        i
    }
}

pub proof fn lemma_scan_bounds(s: Seq<char>, i: int, k: CharClass)
    requires
        0 <= i <= s.len(),
    ensures
        i <= scan(s, i, k) <= s.len(),
        forall|j: int| i <= j < scan(s, i, k) ==> in_class(k, #[trigger] s[j]),
        scan(s, i, k) < s.len() ==> !in_class(k, s[scan(s, i, k)]),
    decreases s.len() - i,
{
    if i < s.len() && in_class(k, s[i]) {
        lemma_scan_bounds(s, i + 1, k);
    }
}

/// End of the maximal run of class `k` in `v` that starts at `i`.
pub fn scan_exec(v: &Vec<char>, i: usize, k: CharClass) -> (r: usize)
    requires
        i <= v@.len(),
    ensures
        r == scan(v@, i as int, k),
        i <= r <= v@.len(),
        v@.len() <= usize::MAX,
{
    let _n = v.len();
    proof {
        lemma_scan_bounds(v@, i as int, k);
    }
    let mut j = i;
    while j < v.len() && in_class_exec(k, v[j])
        invariant
            i <= j <= v@.len(),
            scan(v@, i as int, k) == scan(v@, j as int, k),
        decreases v@.len() - j,
    {
        j = j + 1;
    }
    j
}

/// Whether `s` holds `c` at index `i`.
pub open spec fn char_at(s: Seq<char>, i: int, c: char) -> bool {
    0 <= i < s.len() && s[i] == c
}

pub fn char_at_exec(v: &Vec<char>, i: usize, c: char) -> (r: bool)
    ensures
        r == char_at(v@, i as int, c),
        v@.len() <= usize::MAX,
{
    i < v.len() && v[i] == c
}

/// The end of the literal `lit` when it occurs in `v` at `i`.
pub fn lit_end(v: &Vec<char>, i: usize, lit: &str) -> (r: Option<usize>)
    ensures
        r matches Some(e) ==> occurs_at(v@, lit@, i as int) && e == i + lit@.len(),
        r is None ==> !occurs_at(v@, lit@, i as int),
        v@.len() <= usize::MAX,
{
    let _n = v.len();
    let p = chars_of(lit);
    if occurs_at_exec(v, &p, i) {
        Some(i + p.len())
    } else {
        None
    }
}

} // verus!
