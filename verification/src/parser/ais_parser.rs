//! Parser for agent scripts: either a front matter block followed by the
//! intent text, or an intent script of imports, `func` and `flow` blocks,
//! and top-level intent lines, each intent line starting with `-`.

use vstd::prelude::*;
use crate::text::{trim, occurs_at, slice_chars, trim_chars, string_from_chars, chars_of};
use crate::parser::scan::{
    CharClass, in_class, scan, lemma_scan_bounds, scan_exec, char_at, char_at_exec, lit_end,
    in_class_exec,
};
use crate::parser::ast::{
    Program, Declaration, Flow, Implementation, ParamModel, DeclarationModel, FlowModel,
    ImplementationModel, ProgramModel, lines_model, duplicate_strings,
};
use crate::parser::ParseError;
use crate::parser::has_parser::{FrontMatter, has_frame, has_program, split_has, build_has_program};

verus! {

// ---------------------------------------------------------------------------
// Grammar, as functions from a text and a start index to what is read
// and where reading stops.
// ---------------------------------------------------------------------------

/// Whether `s` holds `//` at `i`.
pub open spec fn comment_at(s: Seq<char>, i: int) -> bool {
    0 <= i && i + 1 < s.len() && s[i] == '/' && s[i + 1] == '/'
}

/// Skips whitespace (space, tab, CR, LF) and `//` comments running to the end
/// of their line.
pub open spec fn skip_comments_and_space(s: Seq<char>, i: int) -> int
    decreases s.len() - i,
{
    if 0 <= i < s.len() && in_class(CharClass::Multispace, s[i]) {
        skip_comments_and_space(s, i + 1)
    } else if comment_at(s, i) {
        proof {
            lemma_scan_bounds(s, i + 2, CharClass::NotLineEnd);
        }
        skip_comments_and_space(s, scan(s, i + 2, CharClass::NotLineEnd))
    } else {
        i
    }
}

pub proof fn lemma_skip_bounds(s: Seq<char>, i: int)
    requires
        0 <= i <= s.len(),
    ensures
        i <= skip_comments_and_space(s, i) <= s.len(),
    decreases s.len() - i,
{
    if i < s.len() && in_class(CharClass::Multispace, s[i]) {
        lemma_skip_bounds(s, i + 1);
    } else if comment_at(s, i) {
        lemma_scan_bounds(s, i + 2, CharClass::NotLineEnd);
        lemma_skip_bounds(s, scan(s, i + 2, CharClass::NotLineEnd));
    }
}

/// One intent line: `-`, optional spaces, then at least one character up to
/// the line end; the text is trimmed.
pub open spec fn intent_line(s: Seq<char>, i: int) -> Option<(Seq<char>, int)> {
    let j = skip_comments_and_space(s, i);
    if char_at(s, j, '-') {
        let k = scan(s, j + 1, CharClass::Space);
        let e = scan(s, k, CharClass::NotLineEnd);
        if e > k {
            Some((trim(s.subrange(k, e)), e))
        } else {
            None
        }
    } else {
        None
    }
}

pub proof fn lemma_intent_line_progress(s: Seq<char>, i: int)
    requires
        0 <= i <= s.len(),
    ensures
        intent_line(s, i) matches Some((_, e)) ==> i < e <= s.len(),
{
    lemma_skip_bounds(s, i);
    let j = skip_comments_and_space(s, i);
    if char_at(s, j, '-') {
        lemma_scan_bounds(s, j + 1, CharClass::Space);
        let k = scan(s, j + 1, CharClass::Space);
        lemma_scan_bounds(s, k, CharClass::NotLineEnd);
    }
}

proof fn lemma_skip_stops(s: Seq<char>, i: int)
    requires
        0 <= i <= s.len(),
    ensures
        ({
            let j = skip_comments_and_space(s, i);
            &&& !(j < s.len() && in_class(CharClass::Multispace, s[j]))
            &&& !comment_at(s, j)
        }),
    decreases s.len() - i,
{
    if i < s.len() && in_class(CharClass::Multispace, s[i]) {
        lemma_skip_stops(s, i + 1);
    } else if comment_at(s, i) {
        lemma_scan_bounds(s, i + 2, CharClass::NotLineEnd);
        lemma_skip_stops(s, scan(s, i + 2, CharClass::NotLineEnd));
    }
}

/// Whitespace and `//` comments before an intent line do not change it:
/// skipping them first reads the same line, a whitespace character or a
/// comment running to its line end may be dropped from the front, and a
/// line starting at a comment is the line after the comment.
pub proof fn lemma_intent_line_after_comments(s: Seq<char>, i: int)
    requires
        0 <= i <= s.len(),
    ensures
        intent_line(s, i) == intent_line(s, skip_comments_and_space(s, i)),
        i < s.len() && in_class(CharClass::Multispace, s[i]) ==> intent_line(s, i)
            == intent_line(s, i + 1),
        comment_at(s, i) ==> intent_line(s, i) == intent_line(
            s,
            scan(s, i + 2, CharClass::NotLineEnd),
        ),
{
    lemma_skip_bounds(s, i);
    lemma_skip_stops(s, i);
    let j = skip_comments_and_space(s, i);
    assert(skip_comments_and_space(s, j) == j);
    if comment_at(s, i) {
        assert(!in_class(CharClass::Multispace, s[i]));
    }
}

/// Zero or more intent lines.
pub open spec fn intent_lines_from(s: Seq<char>, i: int) -> (Seq<Seq<char>>, int)
    decreases s.len() - i,
{
    if 0 <= i <= s.len() {
        match intent_line(s, i) {
            Some((t, e)) => {
                proof {
                    lemma_intent_line_progress(s, i);
                }
                let (rest, end) = intent_lines_from(s, e);
                (seq![t] + rest, end)
            },
            None => (Seq::empty(), i),
        }
    } else {
        (Seq::empty(), i)
    }
}

pub proof fn lemma_intent_lines_bounds(s: Seq<char>, i: int)
    requires
        0 <= i <= s.len(),
    ensures
        i <= intent_lines_from(s, i).1 <= s.len(),
        intent_lines_from(s, i).0.len() > 0 ==> i < intent_lines_from(s, i).1,
    decreases s.len() - i,
{
    lemma_intent_line_progress(s, i);
    if let Some((t, e)) = intent_line(s, i) {
        lemma_intent_lines_bounds(s, e);
    }
}

/// One or more intent lines.
pub open spec fn intent_lines1(s: Seq<char>, i: int) -> Option<(Seq<Seq<char>>, int)> {
    let (ls, e) = intent_lines_from(s, i);
    if ls.len() > 0 {
        Some((ls, e))
    } else {
        None
    }
}

/// Optional `(...)` after optional spaces; where it is, the index after it.
pub open spec fn opt_params(s: Seq<char>, i: int) -> int {
    let k = scan(s, i, CharClass::Space);
    if char_at(s, k, '(') {
        let e = scan(s, k + 1, CharClass::NotCloseParen);
        if char_at(s, e, ')') {
            e + 1
        } else {
            i
        }
    } else {
        i
    }
}

/// Optional `:` after optional spaces.
pub open spec fn opt_colon(s: Seq<char>, i: int) -> int {
    let k = scan(s, i, CharClass::Space);
    if char_at(s, k, ':') {
        k + 1
    } else {
        i
    }
}

/// Optional `@test` attribute after optional spaces, with the whitespace after it.
pub open spec fn opt_test(s: Seq<char>, i: int) -> int {
    let k = scan(s, i, CharClass::Space);
    if occurs_at(s, "@test"@, k) {
        scan(s, k + "@test"@.len(), CharClass::Multispace)
    } else {
        i
    }
}

/// `import "path"`: the path.
pub open spec fn import_at(s: Seq<char>, i: int) -> Option<(Seq<char>, int)> {
    if occurs_at(s, "import"@, i) {
        let k = i + "import"@.len();
        let a = scan(s, k, CharClass::Space);
        if a > k && char_at(s, a, '"') {
            let e = scan(s, a + 1, CharClass::NotQuote);
            if char_at(s, e, '"') {
                Some((s.subrange(a + 1, e), e + 1))
            } else {
                None
            }
        } else {
            None
        }
    } else {
        None
    }
}

/// `func` with optional parameters and colon, then its intent lines.
pub open spec fn func_at(s: Seq<char>, i: int) -> Option<(Seq<Seq<char>>, int)> {
    if occurs_at(s, "func"@, i) {
        let p = opt_params(s, i + "func"@.len());
        let c = opt_colon(s, p);
        intent_lines1(s, scan(s, c, CharClass::Multispace))
    } else {
        None
    }
}

/// Where the keyword of a flow block (`flow` or `@impl`) ends.
pub open spec fn flow_keyword_end(s: Seq<char>, t: int) -> Option<int> {
    if occurs_at(s, "flow"@, t) {
        Some(t + "flow"@.len())
    } else if occurs_at(s, "@impl"@, t) {
        Some(t + "@impl"@.len())
    } else {
        None
    }
}

/// `[@test] flow NAME [(...)] [:]` or `@impl NAME ...`, then intent lines:
/// the trimmed name and the lines.
pub open spec fn flow_at(s: Seq<char>, i: int) -> Option<(Seq<char>, Seq<Seq<char>>, int)> {
    match flow_keyword_end(s, opt_test(s, i)) {
        None => None,
        Some(k) => {
            let a = scan(s, k, CharClass::Space);
            let b = scan(s, a, CharClass::NameChar);
            if a > k && b > a {
                let p = opt_params(s, b);
                let c = opt_colon(s, p);
                match intent_lines1(s, scan(s, c, CharClass::Multispace)) {
                    Some((ls, e)) => Some((trim(s.subrange(a, b)), ls, e)),
                    None => None,
                }
            } else {
                None
            }
        },
    }
}

/// What one top-level item of an intent script holds.
pub enum ItemModel {
    Import(Seq<char>),
    Flow(Seq<char>, Seq<Seq<char>>),
    Func(Seq<Seq<char>>),
    Intent(Seq<char>),
}

/// One item after leading whitespace: an import, a `func` block, a flow
/// block or an intent line, tried in that order.
pub open spec fn item_at(s: Seq<char>, i: int) -> Option<(ItemModel, int)> {
    let m = scan(s, i, CharClass::Multispace);
    match import_at(s, m) {
        Some((p, e)) => Some((ItemModel::Import(p), e)),
        None => match func_at(s, m) {
            Some((ls, e)) => Some((ItemModel::Func(ls), e)),
            None => match flow_at(s, m) {
                Some((n, ls, e)) => Some((ItemModel::Flow(n, ls), e)),
                None => match intent_line(s, m) {
                    Some((t, e)) => Some((ItemModel::Intent(t), e)),
                    None => None,
                },
            },
        },
    }
}

pub proof fn lemma_opt_bounds(s: Seq<char>, i: int)
    requires
        0 <= i <= s.len(),
    ensures
        i <= opt_params(s, i) <= s.len(),
        i <= opt_colon(s, i) <= s.len(),
        i <= opt_test(s, i) <= s.len(),
{
    lemma_scan_bounds(s, i, CharClass::Space);
    let k = scan(s, i, CharClass::Space);
    if char_at(s, k, '(') {
        lemma_scan_bounds(s, k + 1, CharClass::NotCloseParen);
    }
    if occurs_at(s, "@test"@, k) {
        lemma_scan_bounds(s, k + "@test"@.len(), CharClass::Multispace);
    }
}

pub proof fn lemma_item_progress(s: Seq<char>, i: int)
    requires
        0 <= i <= s.len(),
    ensures
        item_at(s, i) matches Some((_, e)) ==> i < e <= s.len(),
{
    reveal_strlit("import");
    lemma_scan_bounds(s, i, CharClass::Multispace);
    let m = scan(s, i, CharClass::Multispace);
    if occurs_at(s, "import"@, m) {
        let k = m + "import"@.len();
        lemma_scan_bounds(s, k, CharClass::Space);
        let a = scan(s, k, CharClass::Space);
        if a > k && char_at(s, a, '"') {
            lemma_scan_bounds(s, a + 1, CharClass::NotQuote);
        }
    }
    if occurs_at(s, "func"@, m) {
        let p = opt_params(s, m + "func"@.len());
        lemma_opt_bounds(s, m + "func"@.len());
        lemma_opt_bounds(s, p);
        let c = opt_colon(s, p);
        lemma_scan_bounds(s, c, CharClass::Multispace);
        lemma_intent_lines_bounds(s, scan(s, c, CharClass::Multispace));
    }
    lemma_opt_bounds(s, m);
    let t = opt_test(s, m);
    if let Some(k) = flow_keyword_end(s, t) {
        lemma_scan_bounds(s, k, CharClass::Space);
        let a = scan(s, k, CharClass::Space);
        lemma_scan_bounds(s, a, CharClass::NameChar);
        let b = scan(s, a, CharClass::NameChar);
        if a > k && b > a {
            lemma_opt_bounds(s, b);
            let p = opt_params(s, b);
            lemma_opt_bounds(s, p);
            let c = opt_colon(s, p);
            lemma_scan_bounds(s, c, CharClass::Multispace);
            lemma_intent_lines_bounds(s, scan(s, c, CharClass::Multispace));
        }
    }
    lemma_intent_line_progress(s, m);
}

/// Zero or more items.
pub open spec fn items_from(s: Seq<char>, i: int) -> (Seq<ItemModel>, int)
    decreases s.len() - i,
{
    if 0 <= i <= s.len() {
        match item_at(s, i) {
            Some((it, e)) => {
                proof {
                    lemma_item_progress(s, i);
                }
                let (rest, end) = items_from(s, e);
                (seq![it] + rest, end)
            },
            None => (Seq::empty(), i),
        }
    } else {
        (Seq::empty(), i)
    }
}

pub proof fn lemma_items_bounds(s: Seq<char>, i: int)
    requires
        0 <= i <= s.len(),
    ensures
        i <= items_from(s, i).1 <= s.len(),
    decreases s.len() - i,
{
    lemma_item_progress(s, i);
    if let Some((t, e)) = item_at(s, i) {
        lemma_items_bounds(s, e);
    }
}

/// The flow that stands for a whole script: `implicit_flow`, without
/// parameters or return type, implemented by the given lines.
pub open spec fn implicit_flow(lines: Seq<Seq<char>>) -> FlowModel {
    FlowModel {
        name: "implicit_flow"@,
        params: Seq::empty(),
        return_ty: None,
        implementation: ImplementationModel::Inline(lines),
    }
}

/// What the items of a script add up to, read in order: the imports and
/// named flows as declarations, the last `func` block, and all top-level
/// intent lines.
pub struct Gathered {
    pub decls: Seq<DeclarationModel>,
    pub main: Option<Seq<Seq<char>>>,
    pub intents: Seq<Seq<char>>,
}

pub open spec fn gather(items: Seq<ItemModel>) -> Gathered
    decreases items.len(),
{
    if items.len() == 0 {
        Gathered { decls: Seq::empty(), main: None, intents: Seq::empty() }
    } else {
        let g = gather(items.drop_last());
        match items.last() {
            ItemModel::Import(p) => Gathered { decls: g.decls.push(DeclarationModel::Import(p)), ..g },
            ItemModel::Flow(n, ls) => Gathered {
                decls: g.decls.push(
                    DeclarationModel::Flow(
                        FlowModel {
                            name: n,
                            params: Seq::empty(),
                            return_ty: None,
                            implementation: ImplementationModel::Inline(ls),
                        },
                    ),
                ),
                ..g
            },
            ItemModel::Func(ls) => Gathered { main: Some(ls), ..g },
            ItemModel::Intent(t) => Gathered { intents: g.intents.push(t), ..g },
        }
    }
}

/// The program a script's items describe. The last `func` block, if any,
/// becomes the main flow `implicit_flow` and top-level intent lines are
/// dropped; otherwise the intent lines form `implicit_flow`, which is added
/// when there are intent lines or nothing else was declared.
pub open spec fn assemble(items: Seq<ItemModel>) -> ProgramModel {
    let g = gather(items);
    match g.main {
        Some(ls) => ProgramModel { declarations: g.decls.push(DeclarationModel::Flow(implicit_flow(ls))) },
        None => if g.intents.len() > 0 || g.decls.len() == 0 {
            ProgramModel { declarations: g.decls.push(DeclarationModel::Flow(implicit_flow(g.intents))) }
        } else {
            ProgramModel { declarations: g.decls }
        },
    }
}

/// A whole intent script: leading whitespace and comments, then as many
/// items as can be read. The program, and where reading stopped.
pub open spec fn ais_parse(s: Seq<char>) -> (ProgramModel, int) {
    let (items, end) = items_from(s, skip_comments_and_space(s, 0));
    (assemble(items), end)
}

/// A script always gives a program with at least one declaration, and when
/// it has a `func` block or a top-level intent line, the program ends with
/// the main flow `implicit_flow`, whose lines are those of the last `func`
/// block or else all top-level intent lines.
pub proof fn lemma_ais_main_flow(s: Seq<char>)
    ensures
        ais_parse(s).0.declarations.len() > 0,
        ({
            let g = gather(items_from(s, skip_comments_and_space(s, 0)).0);
            let ds = ais_parse(s).0.declarations;
            &&& g.main matches Some(ls) ==> ds.last() == DeclarationModel::Flow(implicit_flow(ls))
            &&& (g.main is None && g.intents.len() > 0) ==> ds.last() == DeclarationModel::Flow(
                implicit_flow(g.intents),
            )
        }),
{
}

// ---------------------------------------------------------------------------
// Executable parser.
// ---------------------------------------------------------------------------

fn skip_comments_and_space_exec(v: &Vec<char>, i: usize) -> (r: usize)
    requires
        i <= v@.len(),
    ensures
        r == skip_comments_and_space(v@, i as int),
        i <= r <= v@.len(),
{
    proof {
        lemma_skip_bounds(v@, i as int);
    }
    let n = v.len();
    let mut j = i;
    loop
        invariant
            i <= j <= n,
            n == v@.len(),
            skip_comments_and_space(v@, i as int) == skip_comments_and_space(v@, j as int),
        decreases n - j,
    {
        if j < n && in_class_exec(CharClass::Multispace, v[j]) {
            j = j + 1;
        } else if j < n && j + 1 < n && v[j] == '/' && v[j + 1] == '/' {
            j = scan_exec(v, j + 2, CharClass::NotLineEnd);
        } else {
            return j;
        }
    }
}

fn intent_line_exec(v: &Vec<char>, i: usize) -> (r: Option<(String, usize)>)
    requires
        i <= v@.len(),
    ensures
        r matches Some((t, e)) ==> intent_line(v@, i as int) == Some((t@, e as int)),
        r is None ==> intent_line(v@, i as int) is None,
{
    let j = skip_comments_and_space_exec(v, i);
    if char_at_exec(v, j, '-') {
        let k = scan_exec(v, j + 1, CharClass::Space);
        let e = scan_exec(v, k, CharClass::NotLineEnd);
        if e > k {
            let sub = slice_chars(v, k, e);
            let t = trim_chars(&sub);
            Some((string_from_chars(&t), e))
        } else {
            None
        }
    } else {
        None
    }
}

fn intent_lines1_exec(v: &Vec<char>, i: usize) -> (r: Option<(Vec<String>, usize)>)
    requires
        i <= v@.len(),
    ensures
        r matches Some((ls, e)) ==> intent_lines1(v@, i as int) == Some(
            (lines_model(ls@), e as int),
        ),
        r is None ==> intent_lines1(v@, i as int) is None,
{
    let mut lines: Vec<String> = Vec::new();
    let mut j = i;
    loop
        invariant
            i <= j <= v@.len(),
            intent_lines_from(v@, i as int) == (
                lines_model(lines@) + intent_lines_from(v@, j as int).0,
                intent_lines_from(v@, j as int).1,
            ),
            lines@.len() > 0 ==> i < j,
        decreases v@.len() - j,
    {
        proof {
            lemma_intent_line_progress(v@, j as int);
        }
        match intent_line_exec(v, j) {
            Some((t, e)) => {
                let ghost old_lines = lines@;
                lines.push(t);
                proof {
                    assert(lines_model(lines@) =~= lines_model(old_lines).push(t@));
                    assert(intent_lines_from(v@, j as int).0 =~= seq![t@] + intent_lines_from(
                        v@,
                        e as int,
                    ).0);
                    assert(lines_model(lines@) + intent_lines_from(v@, e as int).0
                        =~= lines_model(old_lines) + intent_lines_from(v@, j as int).0);
                }
                j = e;
            },
            None => {
                proof {
                    assert(lines_model(lines@) + intent_lines_from(v@, j as int).0
                        =~= lines_model(lines@));
                }
                if lines.len() > 0 {
                    return Some((lines, j));
                } else {
                    return None;
                }
            },
        }
    }
}

fn opt_params_exec(v: &Vec<char>, i: usize) -> (r: usize)
    requires
        i <= v@.len(),
    ensures
        r == opt_params(v@, i as int),
        i <= r <= v@.len(),
{
    let k = scan_exec(v, i, CharClass::Space);
    if char_at_exec(v, k, '(') {
        let e = scan_exec(v, k + 1, CharClass::NotCloseParen);
        if char_at_exec(v, e, ')') {
            e + 1
        } else {
            i
        }
    } else {
        i
    }
}

fn opt_colon_exec(v: &Vec<char>, i: usize) -> (r: usize)
    requires
        i <= v@.len(),
    ensures
        r == opt_colon(v@, i as int),
        i <= r <= v@.len(),
{
    let k = scan_exec(v, i, CharClass::Space);
    if char_at_exec(v, k, ':') {
        k + 1
    } else {
        i
    }
}

fn opt_test_exec(v: &Vec<char>, i: usize) -> (r: usize)
    requires
        i <= v@.len(),
    ensures
        r == opt_test(v@, i as int),
        i <= r <= v@.len(),
{
    let k = scan_exec(v, i, CharClass::Space);
    match lit_end(v, k, "@test") {
        Some(e) => scan_exec(v, e, CharClass::Multispace),
        None => i,
    }
}

pub(crate) fn import_exec(v: &Vec<char>, i: usize) -> (r: Option<(String, usize)>)
    requires
        i <= v@.len(),
    ensures
        r matches Some((p, e)) ==> import_at(v@, i as int) == Some((p@, e as int)),
        r is None ==> import_at(v@, i as int) is None,
{
    match lit_end(v, i, "import") {
        None => None,
        Some(k) => {
            let a = scan_exec(v, k, CharClass::Space);
            if a > k && char_at_exec(v, a, '"') {
                let e = scan_exec(v, a + 1, CharClass::NotQuote);
                if char_at_exec(v, e, '"') {
                    let sub = slice_chars(v, a + 1, e);
                    Some((string_from_chars(&sub), e + 1))
                } else {
                    None
                }
            } else {
                None
            }
        },
    }
}

fn func_exec(v: &Vec<char>, i: usize) -> (r: Option<(Vec<String>, usize)>)
    requires
        i <= v@.len(),
    ensures
        r matches Some((ls, e)) ==> func_at(v@, i as int) == Some((lines_model(ls@), e as int)),
        r is None ==> func_at(v@, i as int) is None,
{
    match lit_end(v, i, "func") {
        None => None,
        Some(k) => {
            let p = opt_params_exec(v, k);
            let c = opt_colon_exec(v, p);
            let m = scan_exec(v, c, CharClass::Multispace);
            intent_lines1_exec(v, m)
        },
    }
}

fn flow_exec(v: &Vec<char>, i: usize) -> (r: Option<(String, Vec<String>, usize)>)
    requires
        i <= v@.len(),
    ensures
        r matches Some((n, ls, e)) ==> flow_at(v@, i as int) == Some(
            (n@, lines_model(ls@), e as int),
        ),
        r is None ==> flow_at(v@, i as int) is None,
{
    let t = opt_test_exec(v, i);
    let kw = match lit_end(v, t, "flow") {
        Some(e) => Some(e),
        None => lit_end(v, t, "@impl"),
    };
    match kw {
        None => None,
        Some(k) => {
            let a = scan_exec(v, k, CharClass::Space);
            let b = scan_exec(v, a, CharClass::NameChar);
            if a > k && b > a {
                let p = opt_params_exec(v, b);
                let c = opt_colon_exec(v, p);
                let m = scan_exec(v, c, CharClass::Multispace);
                match intent_lines1_exec(v, m) {
                    Some((ls, e)) => {
                        let sub = slice_chars(v, a, b);
                        let name = trim_chars(&sub);
                        Some((string_from_chars(&name), ls, e))
                    },
                    None => None,
                }
            } else {
                None
            }
        },
    }
}

/// One top-level item of an intent script.
enum ParsedItem {
    Import(String),
    Flow(String, Vec<String>),
    Func(Vec<String>),
    Intent(String),
}

impl View for ParsedItem {
    type V = ItemModel;

    closed spec fn view(&self) -> ItemModel {
        match self {
            ParsedItem::Import(p) => ItemModel::Import(p@),
            ParsedItem::Flow(n, ls) => ItemModel::Flow(n@, lines_model(ls@)),
            ParsedItem::Func(ls) => ItemModel::Func(lines_model(ls@)),
            ParsedItem::Intent(t) => ItemModel::Intent(t@),
        }
    }
}

fn item_exec(v: &Vec<char>, i: usize) -> (r: Option<(ParsedItem, usize)>)
    requires
        i <= v@.len(),
    ensures
        r matches Some((it, e)) ==> item_at(v@, i as int) == Some((it@, e as int)),
        r is None ==> item_at(v@, i as int) is None,
{
    let m = scan_exec(v, i, CharClass::Multispace);
    if let Some((p, e)) = import_exec(v, m) {
        return Some((ParsedItem::Import(p), e));
    }
    if let Some((ls, e)) = func_exec(v, m) {
        return Some((ParsedItem::Func(ls), e));
    }
    if let Some((n, ls, e)) = flow_exec(v, m) {
        return Some((ParsedItem::Flow(n, ls), e));
    }
    if let Some((t, e)) = intent_line_exec(v, m) {
        return Some((ParsedItem::Intent(t), e));
    }
    None
}

fn items_exec(v: &Vec<char>, i: usize) -> (r: (Vec<ParsedItem>, usize))
    requires
        i <= v@.len(),
    ensures
        items_from(v@, i as int) == (r.0@.map_values(|it: ParsedItem| it@), r.1 as int),
        r.1 <= v@.len(),
{
    let mut items: Vec<ParsedItem> = Vec::new();
    let mut j = i;
    loop
        invariant
            i <= j <= v@.len(),
            items_from(v@, i as int) == (
                items@.map_values(|it: ParsedItem| it@) + items_from(v@, j as int).0,
                items_from(v@, j as int).1,
            ),
        decreases v@.len() - j,
    {
        proof {
            lemma_item_progress(v@, j as int);
        }
        match item_exec(v, j) {
            Some((it, e)) => {
                let ghost old_items = items@;
                items.push(it);
                proof {
                    assert(items@.map_values(|it: ParsedItem| it@) =~= old_items.map_values(
                        |it: ParsedItem| it@,
                    ).push(it@));
                    assert(items_from(v@, j as int).0 =~= seq![it@] + items_from(
                        v@,
                        e as int,
                    ).0);
                    assert(items@.map_values(|it: ParsedItem| it@) + items_from(v@, e as int).0
                        =~= old_items.map_values(|it: ParsedItem| it@) + items_from(
                        v@,
                        j as int,
                    ).0);
                }
                j = e;
            },
            None => {
                proof {
                    assert(items@.map_values(|it: ParsedItem| it@) + items_from(v@, j as int).0
                        =~= items@.map_values(|it: ParsedItem| it@));
                }
                return (items, j);
            },
        }
    }
}

fn implicit_flow_exec(lines: Vec<String>) -> (f: Flow)
    ensures
        f@ == implicit_flow(lines_model(lines@)),
{
    let f = Flow {
        name: String::from_str("implicit_flow"),
        params: Vec::new(),
        return_ty: None,
        implementation: Implementation::Inline(lines),
    };
    assert(f@.params =~= Seq::<ParamModel>::empty());
    f
}

/// Reads a script from the front of `input`.
///
/// A script that opens, after whitespace, with a front matter block between
/// `---` lines is read as such: `front` is that block as the caller read it
/// (the block is YAML), and the program is the one flow `implicit_flow` with
/// the declared inputs as parameters, the declared outputs as return type
/// and the non-blank body lines as intent; the whole input is consumed.
/// Without a reading of the block (`front` is `None`) the script cannot be
/// read and [`ParseError::Mismatch`] is returned.
///
/// Any other script is an intent script, read by [`parse_intent_script`],
/// and `front` plays no part.
pub fn parse_ais(input: &mut &str, front: Option<&FrontMatter>) -> (r: Result<Program, ParseError>)
    ensures
        has_frame(old(input)@) matches Some((_, body)) ==> match front {
            Some(fm) => r matches Ok(p) && p@ == has_program(fm.inputs@, fm.outputs@, body)
                && final(input)@.len() == 0,
            None => r == Err::<Program, ParseError>(ParseError::Mismatch) && final(input)@
                == old(input)@,
        },
        has_frame(old(input)@) is None ==> {
            &&& r matches Ok(p) && p@ == ais_parse(old(input)@).0
            &&& final(input)@ == old(input)@.skip(ais_parse(old(input)@).1)
        },
{
    match split_has(*input) {
        Ok((_, body)) => match front {
            Some(fm) => {
                let p = build_has_program(fm, body.as_str());
                let whole: &str = *input;
                let n = whole.unicode_len();
                *input = whole.substring_char(n, n);
                Ok(p)
            },
            None => Err(ParseError::Mismatch),
        },
        Err(_) => Ok(parse_intent_script(input)),
    }
}

/// Parses an intent script from the front of `input`, leaving in `input`
/// what follows the last item read.
///
/// Reading never fails: an unreadable rest is left in `input`. The last
/// `func` block becomes the main flow `implicit_flow`; without one, the
/// top-level intent lines form `implicit_flow`, added when there are intent
/// lines or no other declaration. Imports and named flows come first, in
/// their order in the script.
pub fn parse_intent_script(input: &mut &str) -> (p: Program)
    ensures
        p@ == ais_parse(old(input)@).0,
        0 <= ais_parse(old(input)@).1 <= old(input)@.len(),
        final(input)@ == old(input)@.skip(ais_parse(old(input)@).1),
{
    let v = chars_of(*input);
    let start = skip_comments_and_space_exec(&v, 0);
    let (items, end) = items_exec(&v, start);
    proof {
        lemma_skip_bounds(v@, 0);
        lemma_items_bounds(v@, start as int);
    }
    let ghost models = items@.map_values(|it: ParsedItem| it@);
    let mut declarations: Vec<Declaration> = Vec::new();
    let mut main_func: Option<Vec<String>> = None;
    let mut intents: Vec<String> = Vec::new();
    let mut k: usize = 0;
    assert(models.take(0) =~= Seq::<ItemModel>::empty());
    assert(declarations@.map_values(|d: Declaration| d@) =~= Seq::<DeclarationModel>::empty());
    assert(lines_model(intents@) =~= Seq::<Seq<char>>::empty());
    while k < items.len()
        invariant
            k <= items@.len(),
            models == items@.map_values(|it: ParsedItem| it@),
            gather(models.take(k as int)) == (Gathered {
                decls: declarations@.map_values(|d: Declaration| d@),
                main: match main_func {
                    Some(ls) => Some(lines_model(ls@)),
                    None => None,
                },
                intents: lines_model(intents@),
            }),
        decreases items@.len() - k,
    {
        let ghost old_decls = declarations@;
        let ghost old_intents = intents@;
        assert(models.take(k + 1).drop_last() =~= models.take(k as int));
        match &items[k] {
            ParsedItem::Import(p) => {
                declarations.push(Declaration::Import(p.clone()));
                assert(declarations@.map_values(|d: Declaration| d@) =~= old_decls.map_values(
                    |d: Declaration| d@,
                ).push(DeclarationModel::Import(p@)));
            },
            ParsedItem::Flow(name, ls) => {
                let f = Flow {
                    name: name.clone(),
                    params: Vec::new(),
                    return_ty: None,
                    implementation: Implementation::Inline(duplicate_strings(ls)),
                };
                assert(f@.params =~= Seq::<ParamModel>::empty());
                declarations.push(Declaration::Flow(f));
                assert(declarations@.map_values(|d: Declaration| d@) =~= old_decls.map_values(
                    |d: Declaration| d@,
                ).push(DeclarationModel::Flow(f@)));
            },
            ParsedItem::Func(ls) => {
                main_func = Some(duplicate_strings(ls));
            },
            ParsedItem::Intent(t) => {
                intents.push(t.clone());
                assert(lines_model(intents@) =~= lines_model(old_intents).push(t@));
            },
        }
        k = k + 1;
    }
    assert(models.take(items@.len() as int) =~= models);
    match main_func {
        Some(ls) => {
            let f = implicit_flow_exec(ls);
            let ghost old_decls = declarations@;
            declarations.push(Declaration::Flow(f));
            assert(declarations@.map_values(|d: Declaration| d@) =~= old_decls.map_values(
                |d: Declaration| d@,
            ).push(DeclarationModel::Flow(f@)));
        },
        None => {
            if intents.len() > 0 || declarations.len() == 0 {
                let f = implicit_flow_exec(intents);
                let ghost old_decls = declarations@;
                declarations.push(Declaration::Flow(f));
                assert(declarations@.map_values(|d: Declaration| d@) =~= old_decls.map_values(
                    |d: Declaration| d@,
                ).push(DeclarationModel::Flow(f@)));
            }
        },
    }
    let len = v.len();
    *input = (*input).substring_char(end, len);
    Program { declarations }
}

} // verus!
