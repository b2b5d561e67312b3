//! The outcome of compiling generated code, and the condensed error report
//! that is fed back into correction prompts.

use vstd::prelude::*;
use crate::text::{
    trim, starts_with, lines, join, utf8_len, truncate_bytes, char_boundary, chars_of,
    lines_exec, trim_chars, starts_with_exec, string_from_chars, join_strings,
    truncate_bytes_exec, lemma_prefix_reaching_boundary, lemma_utf8_len_concat,
};

verus! {

/// The outcome of compiling a file.
#[derive(Debug)]
pub enum VerificationResult {
    Success,
    /// Compilation failed; the condensed compiler errors.
    Failure(String),
}

/// Compiles generated code to check it.
pub struct Verifier;

/// Whether a line is an error line: it starts with `error` once trimmed.
pub open spec fn is_error_line(l: Seq<char>) -> bool {
    starts_with(trim(l), "error"@)
}

/// Context lines `j .. end` kept after an error line: those that are not
/// blank and not error lines themselves.
pub open spec fn context_lines(ls: Seq<Seq<char>>, j: int, end: int) -> Seq<Seq<char>>
    decreases end - j,
{
    if j >= end || j < 0 || j >= ls.len() {
        Seq::empty()
    } else {
        let rest = context_lines(ls, j + 1, end);
        if trim(ls[j]).len() > 0 && !is_error_line(ls[j]) {
            seq![ls[j]] + rest
        } else {
            rest
        }
    }
}

/// What line `i` contributes: for an error line, the line and the kept
/// lines among the (up to) three after it.
pub open spec fn error_block(ls: Seq<Seq<char>>, i: int) -> Seq<Seq<char>> {
    if is_error_line(ls[i]) {
        let end = if i + 4 < ls.len() {
            i + 4
        } else {
            ls.len() as int
        };
        seq![ls[i]] + context_lines(ls, i + 1, end)
    } else {
        Seq::empty()
    }
}

/// The blocks of the first `k` lines, in order.
pub open spec fn error_blocks(ls: Seq<Seq<char>>, k: int) -> Seq<Seq<char>>
    decreases k,
{
    if k <= 0 || k > ls.len() {
        Seq::empty()
    } else {
        error_blocks(ls, k - 1) + error_block(ls, k - 1)
    }
}

/// `Vec::dedup`: runs of equal neighbours collapsed to their first element.
pub open spec fn dedup(xs: Seq<Seq<char>>) -> Seq<Seq<char>>
    decreases xs.len(),
{
    if xs.len() == 0 {
        Seq::empty()
    } else {
        let d = dedup(xs.drop_last());
        if d.len() > 0 && d.last() == xs.last() {
            d
        } else {
            d.push(xs.last())
        }
    }
}

/// The error lines of a compiler output with their context, duplicates in
/// a row removed, one per line.
pub open spec fn error_summary(stderr: Seq<char>) -> Seq<char> {
    let ls = lines(stderr);
    join(dedup(error_blocks(ls, ls.len() as int)), "\n"@)
}

/// The condensed report: the summary, cut to 500 bytes and marked with
/// `...` when it is longer.
pub open spec fn condensed(stderr: Seq<char>) -> Seq<char> {
    let j = error_summary(stderr);
    if utf8_len(j) > 500 {
        truncate_bytes(j, 500) + "..."@
    } else {
        j
    }
}

/// The condensed report is never longer than 503 bytes: 500 of the summary
/// and the three dots (when byte 500 of a longer summary falls between
/// characters, as the cut requires).
pub proof fn lemma_condensed_bounded(stderr: Seq<char>)
    requires
        utf8_len(error_summary(stderr)) > 500 ==> char_boundary(error_summary(stderr), 500),
    ensures
        utf8_len(condensed(stderr)) <= 503,
        utf8_len(error_summary(stderr)) <= 500 ==> condensed(stderr) == error_summary(stderr),
{
    let j = error_summary(stderr);
    if utf8_len(j) > 500 {
        let k = choose|k: int| 0 <= k <= j.len() && #[trigger] utf8_len(j.take(k)) == 500;
        lemma_prefix_reaching_boundary(j, 500, k, 0);
        reveal_strlit("...");
        assert(utf8_len("..."@) == 3) by {
            reveal_with_fuel(utf8_len, 4);
        }
        lemma_utf8_len_concat(j.take(k), "..."@);
    }
}

fn context_lines_exec(ls: &Vec<Vec<char>>, j: usize, end: usize, out: &mut Vec<Vec<char>>)
    requires
        j <= end <= ls@.len(),
    ensures
        final(out)@.map_values(|l: Vec<char>| l@) == old(out)@.map_values(|l: Vec<char>| l@)
            + context_lines(ls@.map_values(|l: Vec<char>| l@), j as int, end as int),
    decreases end - j,
{
    let ghost lm = ls@.map_values(|l: Vec<char>| l@);
    if j >= end {
        assert(old(out)@.map_values(|l: Vec<char>| l@) + context_lines(lm, j as int, end as int)
            =~= old(out)@.map_values(|l: Vec<char>| l@));
        return;
    }
    let t = trim_chars(&ls[j]);
    if t.len() > 0 && !starts_with_exec(&t, "error") {
        let copy = crate::text::slice_chars(&ls[j], 0, ls[j].len());
        assert(copy@ =~= ls@[j as int]@);
        let ghost before = out@;
        out.push(copy);
        assert(out@.map_values(|l: Vec<char>| l@) =~= before.map_values(|l: Vec<char>| l@).push(
            lm[j as int],
        ));
        context_lines_exec(ls, j + 1, end, out);
        assert(final(out)@.map_values(|l: Vec<char>| l@) =~= old(out)@.map_values(
            |l: Vec<char>| l@,
        ) + context_lines(lm, j as int, end as int));
    } else {
        context_lines_exec(ls, j + 1, end, out);
    }
}

impl Verifier {
    pub fn new() -> (v: Self) {
        Verifier
    }

    /// The error lines of a compiler output with up to three non-blank,
    /// non-error lines of context after each, duplicates in a row removed,
    /// joined by line feeds.
    pub fn error_summary(stderr: &str) -> (r: String)
        ensures
            r@ == error_summary(stderr@),
    {
        let v = chars_of(stderr);
        let ls = lines_exec(&v);
        let ghost lm = ls@.map_values(|l: Vec<char>| l@);
        let n = ls.len();
        let mut blocks: Vec<Vec<char>> = Vec::new();
        let mut i: usize = 0;
        assert(blocks@.map_values(|l: Vec<char>| l@) =~= Seq::<Seq<char>>::empty());
        while i < n
            invariant
                n == ls@.len(),
                i <= n,
                lm == ls@.map_values(|l: Vec<char>| l@),
                blocks@.map_values(|l: Vec<char>| l@) == error_blocks(lm, i as int),
            decreases n - i,
        {
            let t = trim_chars(&ls[i]);
            if starts_with_exec(&t, "error") {
                let copy = crate::text::slice_chars(&ls[i], 0, ls[i].len());
                assert(copy@ =~= lm[i as int]);
                let ghost before = blocks@;
                blocks.push(copy);
                assert(blocks@.map_values(|l: Vec<char>| l@) =~= before.map_values(
                    |l: Vec<char>| l@,
                ).push(lm[i as int]));
                let end = if n - i > 4 {
                    i + 4
                } else {
                    n
                };
                context_lines_exec(&ls, i + 1, end, &mut blocks);
                assert(blocks@.map_values(|l: Vec<char>| l@) =~= error_blocks(lm, i as int)
                    + error_block(lm, i as int));
            } else {
                assert(error_block(lm, i as int) =~= Seq::<Seq<char>>::empty());
                assert(error_blocks(lm, i + 1) =~= error_blocks(lm, i as int));
            }
            i = i + 1;
        }
        // remove duplicates in a row
        let ghost bm = blocks@.map_values(|l: Vec<char>| l@);
        let mut kept: Vec<String> = Vec::new();
        let mut k: usize = 0;
        assert(bm.take(0) =~= Seq::<Seq<char>>::empty());
        while k < blocks.len()
            invariant
                k <= blocks@.len(),
                bm == blocks@.map_values(|l: Vec<char>| l@),
                kept@.map_values(|s: String| s@) == dedup(bm.take(k as int)),
            decreases blocks@.len() - k,
        {
            assert(bm.take(k + 1).drop_last() =~= bm.take(k as int));
            let s = string_from_chars(&blocks[k]);
            let same = kept.len() > 0 && kept[kept.len() - 1] == s;
            if !same {
                let ghost before = kept@;
                kept.push(s);
                assert(kept@.map_values(|s: String| s@) =~= before.map_values(|s: String| s@).push(
                    bm[k as int],
                ));
            }
            k = k + 1;
        }
        assert(bm.take(blocks@.len() as int) =~= bm);
        join_strings(&kept, "\n")
    }

    /// Condenses compiler output for feedback: [`Verifier::error_summary`],
    /// and when that is longer than 500 bytes, its first 500 bytes followed by
    /// `...` (byte 500 must then fall between characters).
    pub fn clean_error_message(stderr: &str) -> (r: String)
        requires
            utf8_len(error_summary(stderr@)) > 500 ==> char_boundary(error_summary(stderr@), 500),
        ensures
            r@ == condensed(stderr@),
    {
        let joined = Self::error_summary(stderr);
        let v = chars_of(joined.as_str());
        if crate::text::utf8_len_exceeds(&v, 500) {
            let t = truncate_bytes_exec(&v, 500);
            let mut r = string_from_chars(&t);
            r.append("...");
            r
        } else {
            joined
        }
    }
}

} // verus!
