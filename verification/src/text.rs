//! Character-level text helpers shared by the parsers and generators.
//!
//! Text is modelled as `Seq<char>`, the view of `str` and `String`.

use vstd::prelude::*;

verus! {

/// Unicode `White_Space` property, the set that `char::is_whitespace` tests.
pub open spec fn is_ws(c: char) -> bool {
    ||| c == '\t' || c == '\n' || c == '\x0B' || c == '\x0C' || c == '\r' || c == ' '
    ||| c == '\u{85}' || c == '\u{A0}' || c == '\u{1680}'
    ||| ('\u{2000}' <= c && c <= '\u{200A}')
    ||| c == '\u{2028}' || c == '\u{2029}' || c == '\u{202F}' || c == '\u{205F}' || c == '\u{3000}'
}

/// Executable whitespace test.
pub fn is_whitespace(c: char) -> (r: bool)
    ensures
        r == is_ws(c),
{
    c == '\t' || c == '\n' || c == '\x0B' || c == '\x0C' || c == '\r' || c == ' '
        || c == '\u{85}' || c == '\u{A0}' || c == '\u{1680}' || ('\u{2000}' <= c && c
        <= '\u{200A}') || c == '\u{2028}' || c == '\u{2029}' || c == '\u{202F}' || c
        == '\u{205F}' || c == '\u{3000}'
}

/// First position at or after `i` that does not hold whitespace.
pub open spec fn skip_ws(s: Seq<char>, i: int) -> int
    decreases s.len() - i,
{
    if 0 <= i < s.len() && is_ws(s[i]) {
        skip_ws(s, i + 1)
    } else {
        i
    }
}

/// Moving left from `j`, but not below `lo`, the first end position
/// whose preceding character is not whitespace.
pub open spec fn back_ws(s: Seq<char>, lo: int, j: int) -> int
    decreases j - lo,
{
    if lo < j && j <= s.len() && is_ws(s[j - 1]) {
        back_ws(s, lo, j - 1)
    } else {
        j
    }
}

/// `str::trim_start`.
pub open spec fn trim_start(s: Seq<char>) -> Seq<char> {
    s.skip(skip_ws(s, 0))
}

/// `str::trim`.
pub open spec fn trim(s: Seq<char>) -> Seq<char> {
    let a = skip_ws(s, 0);
    s.subrange(a, back_ws(s, a, s.len() as int))
}

pub proof fn lemma_skip_ws_bounds(s: Seq<char>, i: int)
    requires
        0 <= i <= s.len(),
    ensures
        i <= skip_ws(s, i) <= s.len(),
        forall|k: int| i <= k < skip_ws(s, i) ==> is_ws(#[trigger] s[k]),
        skip_ws(s, i) < s.len() ==> !is_ws(s[skip_ws(s, i)]),
    decreases s.len() - i,
{
    if i < s.len() && is_ws(s[i]) {
        lemma_skip_ws_bounds(s, i + 1);
    }
}

pub proof fn lemma_back_ws_bounds(s: Seq<char>, lo: int, j: int)
    requires
        0 <= lo <= j <= s.len(),
    ensures
        lo <= back_ws(s, lo, j) <= j,
        forall|k: int| back_ws(s, lo, j) <= k < j ==> is_ws(#[trigger] s[k]),
        back_ws(s, lo, j) > lo ==> !is_ws(s[back_ws(s, lo, j) - 1]),
    decreases j - lo,
{
    if lo < j && is_ws(s[j - 1]) {
        lemma_back_ws_bounds(s, lo, j - 1);
    }
}

/// `trim` is idempotent.
pub proof fn lemma_trim_idempotent(s: Seq<char>)
    ensures
        trim(trim(s)) == trim(s),
{
    let a = skip_ws(s, 0);
    lemma_skip_ws_bounds(s, 0);
    let b = back_ws(s, a, s.len() as int);
    lemma_back_ws_bounds(s, a, s.len() as int);
    let t = trim(s);
    lemma_skip_ws_bounds(t, 0);
    if t.len() > 0 {
        assert(t[0] == s[a]);
        assert(skip_ws(t, 0) == 0);
        lemma_back_ws_bounds(t, 0, t.len() as int);
        assert(t[t.len() - 1] == s[b - 1]);
        assert(back_ws(t, 0, t.len() as int) == t.len());
    }
    assert(trim(t) =~= t);
}

/// First index of whitespace-free content in `v[lo..hi]`.
pub fn skip_ws_exec(v: &Vec<char>, lo: usize, hi: usize) -> (r: usize)
    requires
        lo <= hi <= v@.len(),
    ensures
        r == skip_ws(v@.take(hi as int), lo as int),
        lo <= r <= hi,
{
    let ghost s = v@.take(hi as int);
    let mut i = lo;
    proof {
        lemma_skip_ws_bounds(s, lo as int);
    }
    while i < hi && is_whitespace(v[i])
        invariant
            lo <= i <= hi <= v@.len(),
            s == v@.take(hi as int),
            skip_ws(s, lo as int) == skip_ws(s, i as int),
        decreases hi - i,
    {
        i = i + 1;
    }
    proof {
        lemma_skip_ws_bounds(s, i as int);
    }
    i
}

/// A copy of `v[lo..hi]`.
pub fn slice_chars(v: &Vec<char>, lo: usize, hi: usize) -> (r: Vec<char>)
    requires
        lo <= hi <= v@.len(),
    ensures
        r@ == v@.subrange(lo as int, hi as int),
{
    let mut r: Vec<char> = Vec::new();
    let mut i = lo;
    while i < hi
        invariant
            lo <= i <= hi <= v@.len(),
            r@ == v@.subrange(lo as int, i as int),
        decreases hi - i,
    {
        r.push(v[i]);
        i = i + 1;
        assert(r@ =~= v@.subrange(lo as int, i as int));
    }
    r
}

/// `str::trim` on a character vector.
pub fn trim_chars(v: &Vec<char>) -> (r: Vec<char>)
    ensures
        r@ == trim(v@),
{
    let n = v.len();
    let a = skip_ws_exec(v, 0, n);
    assert(v@.take(n as int) =~= v@);
    proof {
        lemma_skip_ws_bounds(v@, 0);
    }
    let mut b = n;
    proof {
        lemma_back_ws_bounds(v@, a as int, n as int);
    }
    while b > a && is_whitespace(v[b - 1])
        invariant
            a <= b <= n == v@.len(),
            back_ws(v@, a as int, n as int) == back_ws(v@, a as int, b as int),
        decreases b,
    {
        b = b - 1;
    }
    slice_chars(v, a, b)
}

/// `str::trim_start` on a character vector.
pub fn trim_start_chars(v: &Vec<char>) -> (r: Vec<char>)
    ensures
        r@ == trim_start(v@),
{
    let n = v.len();
    let a = skip_ws_exec(v, 0, n);
    assert(v@.take(n as int) =~= v@);
    let r = slice_chars(v, a, n);
    assert(r@ =~= v@.skip(a as int));
    r
}

/// A string holding exactly the given characters: calls `String::from_iter`
/// on them, which collects the characters in order (std documents `String`
/// as collecting an iterator of characters).
#[verifier::external_body]
pub(crate) fn string_from_chars(cs: &Vec<char>) -> (s: String)
    ensures
        s@ == cs@,
{
    String::from_iter(cs.iter())
}

/// The characters of a string slice, in order.
pub fn chars_of(s: &str) -> (v: Vec<char>)
    ensures
        v@ == s@,
{
    broadcast use vstd::string::axiom_spec_iter;

    let mut v: Vec<char> = Vec::new();
    for c in it: s.chars()
        invariant
            it.seq() == s@,
            v@ == it.seq().take(it.index() as int),
    {
        v.push(c);
        assert(v@ =~= it.seq().take(it.index() + 1));
    }
    assert(v@ =~= s@);
    v
}

/// `str::trim` producing an owned string.
pub fn trim_str(s: &str) -> (r: String)
    ensures
        r@ == trim(s@),
{
    let v = chars_of(s);
    let t = trim_chars(&v);
    string_from_chars(&t)
}

/// Whether `pat` occurs in `s` starting at index `i`.
pub open spec fn occurs_at(s: Seq<char>, pat: Seq<char>, i: int) -> bool {
    0 <= i && i + pat.len() <= s.len() && s.subrange(i, i + pat.len()) == pat
}

/// The first index at or after `i` where `pat` occurs in `s`.
pub open spec fn find_from(s: Seq<char>, pat: Seq<char>, i: int) -> Option<int>
    decreases s.len() + 1 - i,
{
    if i < 0 || i + pat.len() > s.len() {
        None
    } else if occurs_at(s, pat, i) {
        Some(i)
    } else {
        find_from(s, pat, i + 1)
    }
}

/// `str::find` with a string pattern, as a character index.
pub open spec fn find(s: Seq<char>, pat: Seq<char>) -> Option<int> {
    find_from(s, pat, 0)
}

/// `str::contains` with a string pattern.
pub open spec fn contains(s: Seq<char>, pat: Seq<char>) -> bool {
    find(s, pat) is Some
}

/// `str::starts_with` with a string pattern.
pub open spec fn starts_with(s: Seq<char>, pat: Seq<char>) -> bool {
    pat.len() <= s.len() && s.take(pat.len() as int) == pat
}

pub proof fn lemma_find_from_bounds(s: Seq<char>, pat: Seq<char>, i: int)
    ensures
        find_from(s, pat, i) matches Some(k) ==> i <= k && k + pat.len() <= s.len() && occurs_at(
            s,
            pat,
            k,
        ),
        find_from(s, pat, i) matches Some(k) ==> forall|j: int|
            i <= j < k ==> !occurs_at(s, pat, j),
        find_from(s, pat, i) is None && 0 <= i ==> forall|j: int| i <= j ==> !occurs_at(s, pat, j),
    decreases s.len() + 1 - i,
{
    if i < 0 || i + pat.len() > s.len() {
    } else if occurs_at(s, pat, i) {
    } else {
        lemma_find_from_bounds(s, pat, i + 1);
    }
}

/// Whether `pat` occurs in `v` at index `i`.
pub fn occurs_at_exec(v: &Vec<char>, pat: &Vec<char>, i: usize) -> (r: bool)
    ensures
        r == occurs_at(v@, pat@, i as int),
{
    let n = v.len();
    if i > n || pat.len() > n - i {
        return false;
    }
    let mut k: usize = 0;
    while k < pat.len()
        invariant
            n == v@.len(),
            i + pat@.len() <= n,
            k <= pat@.len(),
            forall|j: int| 0 <= j < k ==> v@[i + j] == pat@[j],
        decreases pat@.len() - k,
    {
        if v[i + k] != pat[k] {
            assert(v@.subrange(i as int, i + pat@.len())[k as int] != pat@[k as int]);
            return false;
        }
        k = k + 1;
    }
    assert(v@.subrange(i as int, i + pat@.len()) =~= pat@);
    true
}

/// The first index at or after `from` where `pat` occurs in `v`.
pub fn find_from_exec(v: &Vec<char>, pat: &Vec<char>, from: usize) -> (r: Option<usize>)
    ensures
        r matches Some(k) ==> find_from(v@, pat@, from as int) == Some(k as int),
        r is None ==> find_from(v@, pat@, from as int) is None,
{
    let n = v.len();
    if pat.len() == 0 {
        if from <= n {
            assert(v@.subrange(from as int, from as int) =~= pat@);
            return Some(from);
        } else {
            return None;
        }
    }
    let mut i = from;
    while i < n && pat.len() <= n - i
        invariant
            from <= i,
            n == v@.len(),
            pat@.len() > 0,
            find_from(v@, pat@, from as int) == find_from(v@, pat@, i as int),
        decreases n + 1 - i,
    {
        if occurs_at_exec(v, pat, i) {
            return Some(i);
        }
        i = i + 1;
    }
    None
}

/// `str::find` on characters.
pub fn find_exec(v: &Vec<char>, pat: &str) -> (r: Option<usize>)
    ensures
        r matches Some(k) ==> find(v@, pat@) == Some(k as int),
        r is None ==> find(v@, pat@) is None,
{
    let p = chars_of(pat);
    find_from_exec(v, &p, 0)
}

/// `str::contains` on characters.
pub fn contains_exec(v: &Vec<char>, pat: &str) -> (r: bool)
    ensures
        r == contains(v@, pat@),
{
    find_exec(v, pat).is_some()
}

/// `str::starts_with` on characters.
pub fn starts_with_exec(v: &Vec<char>, pat: &str) -> (r: bool)
    ensures
        r == starts_with(v@, pat@),
{
    let p = chars_of(pat);
    let r = occurs_at_exec(v, &p, 0);
    proof {
        if r {
            assert(v@.take(p@.len() as int) =~= v@.subrange(0, p@.len() as int));
        } else if p@.len() <= v@.len() {
            assert(v@.take(p@.len() as int) =~= v@.subrange(0, p@.len() as int));
        }
    }
    r
}

/// The last index before `j` holding `c`.
pub open spec fn rfind_char_before(s: Seq<char>, c: char, j: int) -> Option<int>
    decreases j,
{
    if j <= 0 || j > s.len() {
        None
    } else if s[j - 1] == c {
        Some(j - 1)
    } else {
        rfind_char_before(s, c, j - 1)
    }
}

/// `str::rfind` with a character pattern.
pub open spec fn rfind_char(s: Seq<char>, c: char) -> Option<int> {
    rfind_char_before(s, c, s.len() as int)
}

pub proof fn lemma_rfind_bounds(s: Seq<char>, c: char, j: int)
    ensures
        rfind_char_before(s, c, j) matches Some(k) ==> 0 <= k < j <= s.len() && s[k] == c,
    decreases j,
{
    if j <= 0 || j > s.len() {
    } else if s[j - 1] == c {
    } else {
        lemma_rfind_bounds(s, c, j - 1);
    }
}

/// `str::rfind` with a character pattern, on characters.
pub fn rfind_char_exec(v: &Vec<char>, c: char) -> (r: Option<usize>)
    ensures
        r matches Some(k) ==> rfind_char(v@, c) == Some(k as int),
        r is None ==> rfind_char(v@, c) is None,
{
    let mut j = v.len();
    while j > 0 && v[j - 1] != c
        invariant
            j <= v@.len(),
            rfind_char(v@, c) == rfind_char_before(v@, c, j as int),
        decreases j,
    {
        j = j - 1;
    }
    if j == 0 {
        None
    } else {
        Some(j - 1)
    }
}

/// The lowercase form of a text, as `str::to_lowercase` computes it
/// (Unicode lowercase mapping, including its context-dependent rules).
pub uninterp spec fn lowercase(s: Seq<char>) -> Seq<char>;

/// Calls `str::to_lowercase`; the result is the Unicode lowercase mapping of
/// the argument, a function of its characters alone, named `lowercase`.
#[verifier::external_body]
fn to_lowercase_std(s: &str) -> (r: String)
    ensures
        r@ == lowercase(s@),
{
    s.to_lowercase()
}

/// The lowercase form of a character vector.
pub fn lowercase_chars(v: &Vec<char>) -> (r: Vec<char>)
    ensures
        r@ == lowercase(v@),
{
    let s = string_from_chars(v);
    let l = to_lowercase_std(s.as_str());
    chars_of(l.as_str())
}

/// Number of bytes of the UTF-8 encoding of a character (`char::len_utf8`).
pub open spec fn char_utf8_len(c: char) -> nat {
    if (c as u32) < 0x80 {
        1
    } else if (c as u32) < 0x800 {
        2
    } else if (c as u32) < 0x10000 {
        3
    } else {
        4
    }
}

/// Number of bytes of the UTF-8 encoding of a text (`str::len`).
pub open spec fn utf8_len(s: Seq<char>) -> nat
    decreases s.len(),
{
    if s.len() == 0 {
        0
    } else {
        utf8_len(s.drop_last()) + char_utf8_len(s.last())
    }
}

pub proof fn lemma_utf8_len_take_step(s: Seq<char>, k: int)
    requires
        0 <= k < s.len(),
    ensures
        utf8_len(s.take(k + 1)) == utf8_len(s.take(k)) + char_utf8_len(s[k]),
{
    assert(s.take(k + 1).drop_last() =~= s.take(k));
}

/// The encoding of a concatenation is the two encodings one after the other.
pub proof fn lemma_utf8_len_concat(a: Seq<char>, b: Seq<char>)
    ensures
        utf8_len(a + b) == utf8_len(a) + utf8_len(b),
    decreases b.len(),
{
    if b.len() == 0 {
        assert(a + b =~= a);
    } else {
        assert((a + b).drop_last() =~= a + b.drop_last());
        lemma_utf8_len_concat(a, b.drop_last());
    }
}

pub proof fn lemma_utf8_len_mono(s: Seq<char>, j: int, k: int)
    requires
        0 <= j <= k <= s.len(),
    ensures
        utf8_len(s.take(j)) <= utf8_len(s.take(k)),
    decreases k - j,
{
    if j < k {
        lemma_utf8_len_take_step(s, k - 1);
        lemma_utf8_len_mono(s, j, k - 1);
    }
}

pub fn char_utf8_len_exec(c: char) -> (r: usize)
    ensures
        r == char_utf8_len(c),
{
    let u = c as u32;
    if u < 0x80 {
        1
    } else if u < 0x800 {
        2
    } else if u < 0x10000 {
        3
    } else {
        4
    }
}

/// The shortest prefix length whose UTF-8 encoding reaches `limit` bytes
/// (the whole text when it is shorter than that).
pub open spec fn prefix_reaching(s: Seq<char>, limit: nat, k: int) -> int
    decreases s.len() - k,
{
    if k >= s.len() || k < 0 || utf8_len(s.take(k)) >= limit {
        k
    } else {
        prefix_reaching(s, limit, k + 1)
    }
}

/// Number of characters, and of UTF-8 bytes, of the shortest prefix of `v`
/// whose encoding reaches `limit` bytes, or of `v` itself when it is shorter.
pub fn prefix_reaching_exec(v: &Vec<char>, limit: usize) -> (r: (usize, u128))
    ensures
        r.0 == prefix_reaching(v@, limit as nat, 0),
        r.1 == utf8_len(v@.take(r.0 as int)),
        r.0 <= v@.len(),
{
    let mut k: usize = 0;
    let mut bytes: u128 = 0;
    let lim = limit as u128;
    assert(v@.take(0) =~= Seq::<char>::empty());
    while k < v.len() && bytes < lim
        invariant
            k <= v@.len(),
            lim == limit,
            bytes == utf8_len(v@.take(k as int)),
            bytes < lim + 4,
            prefix_reaching(v@, limit as nat, 0) == prefix_reaching(v@, limit as nat, k as int),
        decreases v@.len() - k,
    {
        proof {
            lemma_utf8_len_take_step(v@, k as int);
        }
        let w = char_utf8_len_exec(v[k]);
        bytes = bytes + w as u128;
        k = k + 1;
    }
    (k, bytes)
}

/// Whether the UTF-8 encoding of `v` is longer than `limit` bytes.
pub fn utf8_len_exceeds(v: &Vec<char>, limit: usize) -> (r: bool)
    ensures
        r == (utf8_len(v@) > limit),
{
    let mut k: usize = 0;
    let mut bytes: u128 = 0;
    let lim = limit as u128;
    assert(v@.take(0) =~= Seq::<char>::empty());
    while k < v.len() && bytes <= lim
        invariant
            k <= v@.len(),
            lim == limit,
            bytes == utf8_len(v@.take(k as int)),
            bytes <= lim + 4,
        decreases v@.len() - k,
    {
        proof {
            lemma_utf8_len_take_step(v@, k as int);
        }
        let w = char_utf8_len_exec(v[k]);
        bytes = bytes + w as u128;
        k = k + 1;
    }
    proof {
        lemma_utf8_len_mono(v@, k as int, v@.len() as int);
        assert(v@.take(v@.len() as int) =~= v@);
    }
    bytes > lim
}

/// The character of a decimal digit.
pub open spec fn digit_char(d: nat) -> char {
    if d == 0 {
        '0'
    } else if d == 1 {
        '1'
    } else if d == 2 {
        '2'
    } else if d == 3 {
        '3'
    } else if d == 4 {
        '4'
    } else if d == 5 {
        '5'
    } else if d == 6 {
        '6'
    } else if d == 7 {
        '7'
    } else if d == 8 {
        '8'
    } else {
        '9'
    }
}

/// Decimal rendering of a natural number, as `Display` for integers writes it.
pub open spec fn decimal(n: nat) -> Seq<char>
    decreases n,
{
    if n < 10 {
        seq![digit_char(n)]
    } else {
        decimal(n / 10).push(digit_char(n % 10))
    }
}

fn digit_char_exec(d: usize) -> (c: char)
    requires
        d < 10,
    ensures
        c == digit_char(d as nat),
{
    if d == 0 {
        '0'
    } else if d == 1 {
        '1'
    } else if d == 2 {
        '2'
    } else if d == 3 {
        '3'
    } else if d == 4 {
        '4'
    } else if d == 5 {
        '5'
    } else if d == 6 {
        '6'
    } else if d == 7 {
        '7'
    } else if d == 8 {
        '8'
    } else {
        '9'
    }
}

fn decimal_chars(n: usize) -> (r: Vec<char>)
    ensures
        r@ == decimal(n as nat),
    decreases n,
{
    if n < 10 {
        let mut r = Vec::new();
        r.push(digit_char_exec(n));
        assert(r@ =~= decimal(n as nat));
        r
    } else {
        let mut r = decimal_chars(n / 10);
        r.push(digit_char_exec(n % 10));
        r
    }
}

/// Decimal rendering of a `usize`.
pub fn decimal_string(n: usize) -> (r: String)
    ensures
        r@ == decimal(n as nat),
{
    let v = decimal_chars(n);
    string_from_chars(&v)
}

/// The first index at or after `i` holding `c`.
pub open spec fn find_char_from(s: Seq<char>, c: char, i: int) -> Option<int>
    decreases s.len() - i,
{
    if i < 0 || i >= s.len() {
        None
    } else if s[i] == c {
        Some(i)
    } else {
        find_char_from(s, c, i + 1)
    }
}

pub proof fn lemma_find_char_bounds(s: Seq<char>, c: char, i: int)
    ensures
        find_char_from(s, c, i) matches Some(k) ==> i <= k < s.len() && s[k] == c,
        find_char_from(s, c, i) matches Some(k) ==> forall|j: int| i <= j < k ==> s[j] != c,
        find_char_from(s, c, i) is None && 0 <= i ==> forall|j: int| i <= j < s.len() ==> s[j] != c,
    decreases s.len() - i,
{
    if i < 0 || i >= s.len() {
    } else if s[i] == c {
    } else {
        lemma_find_char_bounds(s, c, i + 1);
    }
}

/// A line without its line feed: a carriage return just before the line
/// feed is dropped too.
pub open spec fn strip_cr(t: Seq<char>) -> Seq<char> {
    if t.len() > 0 && t.last() == '\r' {
        t.drop_last()
    } else {
        t
    }
}

/// `str::lines` from index `i`: pieces split at each line feed, with one
/// carriage return before it removed; a last piece without line feed is kept
/// as it is, and nothing follows a final line feed.
pub open spec fn lines_from(s: Seq<char>, i: int) -> Seq<Seq<char>>
    decreases s.len() - i,
{
    if i < 0 || i >= s.len() {
        Seq::empty()
    } else {
        match find_char_from(s, '\n', i) {
            None => seq![s.subrange(i, s.len() as int)],
            Some(k) => {
                proof {
                    lemma_find_char_bounds(s, '\n', i);
                }
                seq![strip_cr(s.subrange(i, k))] + lines_from(s, k + 1)
            },
        }
    }
}

/// `str::lines`.
pub open spec fn lines(s: Seq<char>) -> Seq<Seq<char>> {
    lines_from(s, 0)
}

/// The lines of `v` from index `i`.
pub fn lines_exec(v: &Vec<char>) -> (r: Vec<Vec<char>>)
    ensures
        r@.map_values(|l: Vec<char>| l@) == lines(v@),
{
    let n = v.len();
    let mut r: Vec<Vec<char>> = Vec::new();
    let mut i: usize = 0;
    assert(r@.map_values(|l: Vec<char>| l@) =~= Seq::<Seq<char>>::empty());
    while i < n
        invariant
            i <= n == v@.len(),
            lines(v@) == r@.map_values(|l: Vec<char>| l@) + lines_from(v@, i as int),
        decreases n - i,
    {
        let ghost old_r = r@;
        let mut k = i;
        while k < n && v[k] != '\n'
            invariant
                i <= k <= n == v@.len(),
                find_char_from(v@, '\n', i as int) == find_char_from(v@, '\n', k as int),
            decreases n - k,
        {
            k = k + 1;
        }
        if k == n {
            let piece = slice_chars(v, i, n);
            r.push(piece);
            assert(r@.map_values(|l: Vec<char>| l@) =~= old_r.map_values(|l: Vec<char>| l@).push(
                piece@,
            ));
            assert(lines_from(v@, n as int) =~= Seq::<Seq<char>>::empty());
            i = n;
        } else {
            proof {
                lemma_find_char_bounds(v@, '\n', i as int);
            }
            let mut end = k;
            if end > i && v[end - 1] == '\r' {
                end = end - 1;
            }
            let piece = slice_chars(v, i, end);
            assert(piece@ =~= strip_cr(v@.subrange(i as int, k as int)));
            r.push(piece);
            assert(r@.map_values(|l: Vec<char>| l@) =~= old_r.map_values(|l: Vec<char>| l@).push(
                piece@,
            ));
            i = k + 1;
        }
    }
    assert(lines_from(v@, i as int) =~= Seq::<Seq<char>>::empty());
    r
}

/// The first index at or after `from` holding `c`.
pub fn find_char_exec(v: &Vec<char>, c: char, from: usize) -> (r: Option<usize>)
    ensures
        r matches Some(k) ==> find_char_from(v@, c, from as int) == Some(k as int),
        r is None ==> find_char_from(v@, c, from as int) is None,
{
    let mut i = from;
    while i < v.len() && v[i] != c
        invariant
            from <= i,
            find_char_from(v@, c, from as int) == find_char_from(v@, c, i as int),
        decreases v@.len() - i,
    {
        i = i + 1;
    }
    if i < v.len() {
        Some(i)
    } else {
        None
    }
}

/// Moving left from `j`, the first end position whose preceding character
/// is not `c`.
pub open spec fn back_char(s: Seq<char>, c: char, j: int) -> int
    decreases j,
{
    if 0 < j && j <= s.len() && s[j - 1] == c {
        back_char(s, c, j - 1)
    } else {
        j
    }
}

/// `str::trim_end_matches` with a character pattern.
pub open spec fn trim_end_char(s: Seq<char>, c: char) -> Seq<char> {
    s.take(back_char(s, c, s.len() as int))
}

pub fn trim_end_char_exec(v: &Vec<char>, c: char) -> (r: Vec<char>)
    ensures
        r@ == trim_end_char(v@, c),
{
    let mut j = v.len();
    while j > 0 && v[j - 1] == c
        invariant
            j <= v@.len(),
            back_char(v@, c, v@.len() as int) == back_char(v@, c, j as int),
        decreases j,
    {
        j = j - 1;
    }
    let r = slice_chars(v, 0, j);
    assert(r@ =~= v@.take(j as int));
    r
}

/// Whether every character is an ASCII digit.
pub open spec fn all_digits(s: Seq<char>) -> bool {
    forall|k: int| 0 <= k < s.len() ==> '0' <= #[trigger] s[k] && s[k] <= '9'
}

/// The value of a string of ASCII digits.
pub open spec fn digits_value(s: Seq<char>) -> nat
    decreases s.len(),
{
    if s.len() == 0 {
        0
    } else {
        digits_value(s.drop_last()) * 10 + ((s.last() as nat) - ('0' as nat)) as nat
    }
}

/// Whether `i32::from_str` accepts the text: an optional `+` or `-`, then at
/// least one ASCII digit, with the value in the range of `i32`.
pub open spec fn parses_as_i32(s: Seq<char>) -> bool {
    let signed = s.len() > 0 && (s[0] == '+' || s[0] == '-');
    let ds = if signed {
        s.skip(1)
    } else {
        s
    };
    &&& ds.len() > 0
    &&& all_digits(ds)
    &&& if signed && s[0] == '-' {
        digits_value(ds) <= 2147483648
    } else {
        digits_value(ds) <= 2147483647
    }
}

pub proof fn lemma_digits_value_step(s: Seq<char>, k: int)
    requires
        0 <= k < s.len(),
    ensures
        digits_value(s.take(k + 1)) == digits_value(s.take(k)) * 10 + ((s[k] as nat) - (
        '0' as nat)) as nat,
{
    assert(s.take(k + 1).drop_last() =~= s.take(k));
}

pub proof fn lemma_digits_value_grows(s: Seq<char>, j: int, k: int)
    requires
        0 <= j <= k <= s.len(),
        all_digits(s),
    ensures
        digits_value(s.take(j)) <= digits_value(s.take(k)),
    decreases k - j,
{
    if j < k {
        lemma_digits_value_step(s, k - 1);
        lemma_digits_value_grows(s, j, k - 1);
    }
}

/// Whether `ds` is all digits with a value of at most `limit`.
fn digits_within(ds: &Vec<char>, limit: u64) -> (r: bool)
    requires
        limit < 0x1_0000_0000,
    ensures
        r == (all_digits(ds@) && digits_value(ds@) <= limit),
{
    let mut k: usize = 0;
    let mut value: u64 = 0;
    assert(ds@.take(0) =~= Seq::<char>::empty());
    while k < ds.len()
        invariant
            k <= ds@.len(),
            all_digits(ds@.take(k as int)),
            value == digits_value(ds@.take(k as int)),
            value <= limit,
            limit < 0x1_0000_0000,
        decreases ds@.len() - k,
    {
        let c = ds[k];
        if !('0' <= c && c <= '9') {
            assert(!all_digits(ds@));
            return false;
        }
        proof {
            lemma_digits_value_step(ds@, k as int);
        }
        let d = (c as u32 - '0' as u32) as u64;
        let next = value * 10 + d;
        assert(ds@.take(k + 1) =~= ds@.take(k as int).push(c));
        if next > limit {
            proof {
                if all_digits(ds@) {
                    lemma_digits_value_grows(ds@, k + 1, ds@.len() as int);
                    assert(ds@.take(ds@.len() as int) =~= ds@);
                }
            }
            return false;
        }
        value = next;
        k = k + 1;
    }
    assert(ds@.take(ds@.len() as int) =~= ds@);
    true
}

/// Whether `i32::from_str` accepts the characters.
pub fn parses_as_i32_exec(v: &Vec<char>) -> (r: bool)
    ensures
        r == parses_as_i32(v@),
{
    let signed = v.len() > 0 && (v[0] == '+' || v[0] == '-');
    let ds = if signed {
        slice_chars(v, 1, v.len())
    } else {
        slice_chars(v, 0, v.len())
    };
    assert(ds@ =~= if signed {
        v@.skip(1)
    } else {
        v@
    });
    if ds.len() == 0 {
        return false;
    }
    if signed && v[0] == '-' {
        digits_within(&ds, 2147483648)
    } else {
        digits_within(&ds, 2147483647)
    }
}

/// ASCII case folding of one character.
pub open spec fn fold_ascii(c: char) -> char {
    if 'A' <= c && c <= 'Z' {
        ((c as u8) + 32) as char
    } else {
        c
    }
}

/// Equality of texts up to ASCII case.
pub open spec fn eq_ignore_ascii_case(s: Seq<char>, t: Seq<char>) -> bool {
    s.len() == t.len() && forall|k: int| 0 <= k < s.len() ==> fold_ascii(#[trigger] s[k]) == fold_ascii(t[k])
}

fn fold_ascii_exec(c: char) -> (r: char)
    ensures
        r == fold_ascii(c),
{
    if 'A' <= c && c <= 'Z' {
        ((c as u8) + 32) as char
    } else {
        c
    }
}

fn eq_ignore_ascii_case_exec(v: &Vec<char>, lit: &str) -> (r: bool)
    ensures
        r == eq_ignore_ascii_case(v@, lit@),
{
    let w = chars_of(lit);
    if v.len() != w.len() {
        return false;
    }
    let mut k: usize = 0;
    while k < v.len()
        invariant
            v@.len() == w@.len(),
            w@ == lit@,
            k <= v@.len(),
            forall|j: int| 0 <= j < k ==> fold_ascii(#[trigger] v@[j]) == fold_ascii(w@[j]),
        decreases v@.len() - k,
    {
        if fold_ascii_exec(v[k]) != fold_ascii_exec(w[k]) {
            return false;
        }
        k = k + 1;
    }
    true
}

/// Whether `s[i]` is an ASCII digit.
pub open spec fn digit_at(s: Seq<char>, i: int) -> bool {
    0 <= i < s.len() && '0' <= s[i] && s[i] <= '9'
}

/// The end of the run of ASCII digits that starts at `i`.
pub open spec fn digits_end(s: Seq<char>, i: int) -> int
    decreases s.len() - i,
{
    if digit_at(s, i) {
        digits_end(s, i + 1)
    } else {
        i
    }
}

pub proof fn lemma_digits_end_bounds(s: Seq<char>, i: int)
    requires
        0 <= i <= s.len(),
    ensures
        i <= digits_end(s, i) <= s.len(),
    decreases s.len() - i,
{
    if digit_at(s, i) {
        lemma_digits_end_bounds(s, i + 1);
    }
}

fn digits_end_exec(v: &Vec<char>, i: usize) -> (r: usize)
    requires
        i <= v@.len(),
    ensures
        r == digits_end(v@, i as int),
        i <= r <= v@.len(),
{
    proof {
        lemma_digits_end_bounds(v@, i as int);
    }
    let mut j = i;
    while j < v.len() && '0' <= v[j] && v[j] <= '9'
        invariant
            i <= j <= v@.len(),
            digits_end(v@, i as int) == digits_end(v@, j as int),
        decreases v@.len() - j,
    {
        j = j + 1;
    }
    j
}

/// Whether `t` from `i` on is an exponent: `e` or `E`, an optional sign,
/// then digits to the end.
pub open spec fn exponent_from(t: Seq<char>, i: int) -> bool {
    &&& i < t.len()
    &&& (t[i] == 'e' || t[i] == 'E')
    &&& {
        let k = if i + 1 < t.len() && (t[i + 1] == '+' || t[i + 1] == '-') {
            i + 2
        } else {
            i + 1
        };
        let e = digits_end(t, k);
        e > k && e == t.len()
    }
}

/// Whether an unsigned text is a decimal number: digits with an optional
/// fraction, at least one digit in all, and an optional exponent.
pub open spec fn decimal_number(t: Seq<char>) -> bool {
    let a = digits_end(t, 0);
    let (b, frac) = if a < t.len() && t[a] == '.' {
        (digits_end(t, a + 1), digits_end(t, a + 1) - (a + 1))
    } else {
        (a, 0)
    };
    &&& a + frac > 0
    &&& (b == t.len() || exponent_from(t, b))
}

/// Whether `f32::from_str` accepts the text: an optional sign, then `inf`,
/// `infinity` or `nan` in any ASCII case, or a decimal number.
pub open spec fn parses_as_f32(s: Seq<char>) -> bool {
    let t = if s.len() > 0 && (s[0] == '+' || s[0] == '-') {
        s.skip(1)
    } else {
        s
    };
    &&& t.len() > 0
    &&& (eq_ignore_ascii_case(t, "inf"@) || eq_ignore_ascii_case(t, "infinity"@)
        || eq_ignore_ascii_case(t, "nan"@) || decimal_number(t))
}

fn decimal_number_exec(t: &Vec<char>) -> (r: bool)
    ensures
        r == decimal_number(t@),
{
    let n = t.len();
    let a = digits_end_exec(t, 0);
    let (b, frac) = if a < n && t[a] == '.' {
        let b = digits_end_exec(t, a + 1);
        (b, b - (a + 1))
    } else {
        (a, 0)
    };
    if a + frac == 0 {
        return false;
    }
    if b == n {
        return true;
    }
    if !(t[b] == 'e' || t[b] == 'E') {
        return false;
    }
    let k = if b + 1 < n && (t[b + 1] == '+' || t[b + 1] == '-') {
        b + 2
    } else {
        b + 1
    };
    let e = digits_end_exec(t, k);
    e > k && e == n
}

/// Whether `f32::from_str` accepts the characters.
pub fn parses_as_f32_exec(v: &Vec<char>) -> (r: bool)
    ensures
        r == parses_as_f32(v@),
{
    let t = if v.len() > 0 && (v[0] == '+' || v[0] == '-') {
        slice_chars(v, 1, v.len())
    } else {
        slice_chars(v, 0, v.len())
    };
    assert(t@ =~= if v@.len() > 0 && (v@[0] == '+' || v@[0] == '-') {
        v@.skip(1)
    } else {
        v@
    });
    if t.len() == 0 {
        return false;
    }
    eq_ignore_ascii_case_exec(&t, "inf") || eq_ignore_ascii_case_exec(&t, "infinity")
        || eq_ignore_ascii_case_exec(&t, "nan") || decimal_number_exec(&t)
}

/// Whether the characters spell the given text.
pub fn chars_equal(v: &Vec<char>, lit: &str) -> (r: bool)
    ensures
        r == (v@ == lit@),
{
    let w = chars_of(lit);
    if v.len() != w.len() {
        return false;
    }
    let mut i: usize = 0;
    while i < v.len()
        invariant
            v@.len() == w@.len(),
            w@ == lit@,
            i <= v@.len(),
            forall|j: int| 0 <= j < i ==> v@[j] == w@[j],
        decreases v@.len() - i,
    {
        if v[i] != w[i] {
            return false;
        }
        i = i + 1;
    }
    assert(v@ =~= w@);
    true
}

/// The texts joined with `sep` between neighbours (`[T]::join`).
pub open spec fn join(xs: Seq<Seq<char>>, sep: Seq<char>) -> Seq<char>
    decreases xs.len(),
{
    if xs.len() == 0 {
        Seq::empty()
    } else if xs.len() == 1 {
        xs[0]
    } else {
        join(xs.drop_last(), sep) + sep + xs.last()
    }
}

/// Joins strings with a separator.
pub fn join_strings(v: &Vec<String>, sep: &str) -> (r: String)
    ensures
        r@ == join(v@.map_values(|s: String| s@), sep@),
{
    let ghost xs = v@.map_values(|s: String| s@);
    let mut r = String::new();
    let mut i: usize = 0;
    assert(xs.take(0) =~= Seq::<Seq<char>>::empty());
    while i < v.len()
        invariant
            i <= v@.len(),
            xs == v@.map_values(|s: String| s@),
            r@ == join(xs.take(i as int), sep@),
        decreases v@.len() - i,
    {
        assert(xs.take(i + 1).drop_last() =~= xs.take(i as int));
        if i > 0 {
            r.append(sep);
        }
        r.append(v[i].as_str());
        proof {
            if i == 0 {
                assert(r@ =~= xs.take(1)[0]);
            }
        }
        i = i + 1;
    }
    assert(xs.take(v@.len() as int) =~= xs);
    r
}

/// Equality of two string slices by their characters.
pub fn str_equal(a: &str, b: &str) -> (r: bool)
    ensures
        r == (a@ == b@),
{
    let v = chars_of(a);
    chars_equal(&v, b)
}

/// Whether byte offset `n` of the UTF-8 encoding of `s` falls between two
/// characters (or at an end): `str::is_char_boundary`.
pub open spec fn char_boundary(s: Seq<char>, n: nat) -> bool {
    exists|k: int| 0 <= k <= s.len() && #[trigger] utf8_len(s.take(k)) == n
}

/// The text cut to its first `n` bytes when it is longer, as `&s[..n]`
/// does; otherwise the text itself.
pub open spec fn truncate_bytes(s: Seq<char>, n: nat) -> Seq<char> {
    if utf8_len(s) > n {
        s.take(prefix_reaching(s, n, 0))
    } else {
        s
    }
}

pub proof fn lemma_utf8_len_strict(s: Seq<char>, j: int, k: int)
    requires
        0 <= j < k <= s.len(),
    ensures
        utf8_len(s.take(j)) < utf8_len(s.take(k)),
{
    lemma_utf8_len_take_step(s, k - 1);
    lemma_utf8_len_mono(s, j, k - 1);
}

pub proof fn lemma_prefix_reaching_boundary(s: Seq<char>, n: nat, k: int, i: int)
    requires
        0 <= i <= k <= s.len(),
        utf8_len(s.take(k)) == n,
    ensures
        prefix_reaching(s, n, i) == k,
    decreases k - i,
{
    if i < k {
        lemma_utf8_len_strict(s, i, k);
        lemma_prefix_reaching_boundary(s, n, k, i + 1);
    }
}

/// Whether byte offset `n` of the text is a character boundary.
pub fn byte_boundary(s: &str, n: usize) -> (r: bool)
    ensures
        r == char_boundary(s@, n as nat),
{
    let v = chars_of(s);
    let (k, bytes) = prefix_reaching_exec(&v, n);
    proof {
        if char_boundary(v@, n as nat) {
            let j = choose|j: int| 0 <= j <= v@.len() && #[trigger] utf8_len(v@.take(j)) == n;
            lemma_prefix_reaching_boundary(v@, n as nat, j, 0);
        }
        if bytes == n as u128 {
            assert(utf8_len(v@.take(k as int)) == n);
        }
    }
    bytes == n as u128
}

/// `&s[..n]` for a text longer than `n` bytes, the text itself otherwise.
pub fn truncate_bytes_exec(v: &Vec<char>, n: usize) -> (r: Vec<char>)
    ensures
        r@ == truncate_bytes(v@, n as nat),
{
    if utf8_len_exceeds(v, n) {
        let (k, _) = prefix_reaching_exec(v, n);
        let r = slice_chars(v, 0, k);
        assert(r@ =~= v@.take(k as int));
        r
    } else {
        slice_chars(v, 0, v.len())
    }
}

/// First position at or after `i`, and before `hi`, not holding whitespace.
pub open spec fn skip_ws_in(s: Seq<char>, i: int, hi: int) -> int
    decreases hi - i,
{
    if 0 <= i < hi && hi <= s.len() && is_ws(s[i]) {
        skip_ws_in(s, i + 1, hi)
    } else {
        i
    }
}

pub proof fn lemma_skip_ws_shift(s: Seq<char>, lo: int, hi: int, i: int)
    requires
        0 <= lo <= i <= hi <= s.len(),
    ensures
        skip_ws(s.subrange(lo, hi), i - lo) + lo == skip_ws_in(s, i, hi),
        i <= skip_ws_in(s, i, hi) <= hi,
    decreases hi - i,
{
    if i < hi && is_ws(s[i]) {
        lemma_skip_ws_shift(s, lo, hi, i + 1);
    }
}

pub proof fn lemma_back_ws_shift(s: Seq<char>, lo: int, a: int, j: int)
    requires
        0 <= lo <= a <= j <= s.len(),
    ensures
        back_ws(s.subrange(lo, j), a - lo, j - lo) + lo == back_ws(s, a, j),
    decreases j - a,
{
    let t = s.subrange(lo, j);
    if a < j && is_ws(s[j - 1]) {
        lemma_back_ws_shift(s, lo, a, j - 1);
        lemma_back_ws_prefix(s.subrange(lo, j), a - lo, j - lo - 1);
        assert(s.subrange(lo, j).subrange(0, j - 1 - lo) =~= s.subrange(lo, j - 1));
    }
}

/// `back_ws` only looks at characters before its end.
pub proof fn lemma_back_ws_prefix(t: Seq<char>, a: int, j: int)
    requires
        0 <= a <= j < t.len(),
    ensures
        back_ws(t, a, j) == back_ws(t.subrange(0, j), a, j),
    decreases j - a,
{
    if a < j && is_ws(t[j - 1]) {
        lemma_back_ws_prefix(t, a, j - 1);
        lemma_back_ws_prefix(t.subrange(0, j), a, j - 1);
        assert(t.subrange(0, j).subrange(0, j - 1) =~= t.subrange(0, j - 1));
    }
}

/// `trim(s[lo..hi])` as a range of `s`.
pub fn trim_range_exec(v: &Vec<char>, lo: usize, hi: usize) -> (r: (usize, usize))
    requires
        lo <= hi <= v@.len(),
    ensures
        lo <= r.0 <= r.1 <= hi,
        v@.subrange(r.0 as int, r.1 as int) == trim(v@.subrange(lo as int, hi as int)),
{
    let mut a = lo;
    proof {
        lemma_skip_ws_shift(v@, lo as int, hi as int, lo as int);
    }
    while a < hi && is_whitespace(v[a])
        invariant
            lo <= a <= hi <= v@.len(),
            skip_ws_in(v@, lo as int, hi as int) == skip_ws_in(v@, a as int, hi as int),
        decreases hi - a,
    {
        a = a + 1;
    }
    let mut b = hi;
    proof {
        lemma_back_ws_bounds(v@, a as int, hi as int);
    }
    while b > a && is_whitespace(v[b - 1])
        invariant
            a <= b <= hi <= v@.len(),
            back_ws(v@, a as int, hi as int) == back_ws(v@, a as int, b as int),
        decreases b,
    {
        b = b - 1;
    }
    proof {
        let t = v@.subrange(lo as int, hi as int);
        lemma_skip_ws_shift(v@, lo as int, hi as int, lo as int);
        lemma_back_ws_shift(v@, lo as int, a as int, hi as int);
        assert(skip_ws(t, 0) == a - lo);
        assert(back_ws(t, a - lo, t.len() as int) == b - lo);
        assert(v@.subrange(a as int, b as int) =~= t.subrange(a - lo, b - lo));
    }
    (a, b)
}

} // verus!
