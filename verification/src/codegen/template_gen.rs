//! Deterministic generation of Rust programs for flows whose intent matches
//! one of a few simple patterns.

use vstd::prelude::*;
use crate::text::{
    trim, trim_start, lowercase, find, contains, starts_with, rfind_char, find_char_from,
    trim_end_char, parses_as_i32, parses_as_f32, chars_of, trim_chars, trim_start_chars,
    lowercase_chars, find_exec, contains_exec, starts_with_exec, rfind_char_exec, find_char_exec,
    trim_end_char_exec, parses_as_i32_exec, parses_as_f32_exec, slice_chars, string_from_chars, chars_equal,
    lemma_find_from_bounds, lemma_rfind_bounds, lemma_find_char_bounds,
};
use crate::parser::ast::{
    Flow, Param, Type, Implementation, TypeModel, ParamModel, FlowModel, ImplementationModel,
    lines_model,
};

verus! {

// ---------------------------------------------------------------------------
// What each pattern produces.
// ---------------------------------------------------------------------------

/// The message of a print intent `line`, given its lowercase form `lower`:
/// the text of `line` after the first `print` found in `lower`, with leading
/// whitespace removed and, when it starts with a quote, the part up to the
/// last matching quote. `None` when there is no `print` or the message is
/// empty.
pub open spec fn message_after_print(line: Seq<char>, lower: Seq<char>) -> Option<Seq<char>> {
    match find(lower, "print"@) {
        None => None,
        Some(pos) => if pos + 5 > line.len() {
            None
        } else {
            let rest = trim_start(line.skip(pos + 5));
            let msg = if rest.len() > 0 && (rest[0] == '"' || rest[0] == '\'') {
                let inner = rest.skip(1);
                match rfind_char(inner, rest[0]) {
                    Some(end) => inner.take(end),
                    None => inner,
                }
            } else {
                rest
            };
            if msg.len() == 0 {
                None
            } else {
                Some(msg)
            }
        },
    }
}

/// The text between the first two occurrences of quote `q`, when it is not
/// blank.
pub open spec fn quoted_with(text: Seq<char>, q: char) -> Option<Seq<char>> {
    match find_char_from(text, q, 0) {
        None => None,
        Some(start) => {
            let rest = text.skip(start + 1);
            match find_char_from(rest, q, 0) {
                None => None,
                Some(end) => if trim(rest.take(end)).len() > 0 {
                    Some(rest.take(end))
                } else {
                    None
                },
            }
        },
    }
}

/// The first non-blank text in double quotes, else in single quotes.
pub open spec fn quoted_string(text: Seq<char>) -> Option<Seq<char>> {
    match quoted_with(text, '"') {
        Some(x) => Some(x),
        None => quoted_with(text, '\''),
    }
}

proof fn lemma_first_char_at(t: Seq<char>, c: char, k: int)
    requires
        0 <= k < t.len(),
        t[k] == c,
        forall|j: int| 0 <= j < k ==> t[j] != c,
    ensures
        find_char_from(t, c, 0) == Some(k),
{
    lemma_find_char_bounds(t, c, 0);
}

/// The quoted text of a line is the text between its first two quotes, in
/// double quotes when there is one; a line with no double quote gives its
/// text in single quotes. For a line `a q p q b` where the quote `q` occurs
/// neither in `a` nor in `p` and `p` is not blank, that is `p`.
pub proof fn lemma_quoted_text(a: Seq<char>, p: Seq<char>, b: Seq<char>, q: char)
    requires
        q == '"' || q == '\'',
        !a.contains(q),
        !p.contains(q),
        trim(p).len() > 0,
        q == '\'' ==> !(a + seq![q] + p + seq![q] + b).contains('"'),
    ensures
        quoted_string(a + seq![q] + p + seq![q] + b) == Some(p),
{
    let t = a + seq![q] + p + seq![q] + b;
    assert forall|j: int| 0 <= j < a.len() implies t[j] != q by {
        assert(t[j] == a[j]);
    }
    assert(t[a.len() as int] == q);
    lemma_first_char_at(t, q, a.len() as int);
    let rest = t.skip(a.len() as int + 1);
    assert(rest =~= p + seq![q] + b);
    assert forall|j: int| 0 <= j < p.len() implies rest[j] != q by {
        assert(rest[j] == p[j]);
    }
    assert(rest[p.len() as int] == q);
    lemma_first_char_at(rest, q, p.len() as int);
    assert(rest.take(p.len() as int) =~= p);
    if q == '\'' {
        lemma_find_char_bounds(t, '"', 0);
        if find_char_from(t, '"', 0) is Some {
            let k = find_char_from(t, '"', 0)->0;
            assert(t.contains('"')) by {
                assert(t[k] == '"');
            }
        }
    }
}

/// The Rust type written for a type in generated code.
pub open spec fn rust_type_name(t: TypeModel) -> Seq<char> {
    match t {
        TypeModel::I32 => "i32"@,
        TypeModel::F32 => "f32"@,
        TypeModel::Bool => "bool"@,
        TypeModel::Str => "String"@,
        TypeModel::Void => "()"@,
        _ => "i32"@,
    }
}

/// The literal passed for a type in generated calls.
pub open spec fn default_literal_text(t: TypeModel) -> Seq<char> {
    match t {
        TypeModel::I32 => "1"@,
        TypeModel::F32 => "1.0"@,
        TypeModel::Bool => "true"@,
        TypeModel::Str => "\"test\""@,
        _ => "0"@,
    }
}

/// The arithmetic operator a lowercase intent names, by keywords, checked in
/// the order addition, subtraction, multiplication, division.
pub open spec fn operator_named(l: Seq<char>) -> Option<Seq<char>> {
    if contains(l, "add"@) || contains(l, "sum"@) || contains(l, "plus"@) || contains(l, "a + b"@) {
        Some("+"@)
    } else if contains(l, "subtract"@) || contains(l, "minus"@) || contains(l, "a - b"@)
        || contains(l, "difference"@) {
        Some("-"@)
    } else if contains(l, "multiply"@) || contains(l, "product"@) || contains(l, "a * b"@)
        || contains(l, "times"@) {
        Some("*"@)
    } else if contains(l, "divide"@) || contains(l, "a / b"@) || contains(l, "quotient"@) {
        Some("/"@)
    } else {
        None
    }
}

/// The common numeric type of exactly two typed parameters of the same
/// type, `i32` or `f32`.
pub open spec fn numeric_pair(params: Seq<ParamModel>) -> Option<TypeModel> {
    if params.len() != 2 {
        None
    } else {
        match (params[0].ty, params[1].ty) {
            (Some(t1), Some(t2)) => if t1 == t2 && (t1 is I32 || t1 is F32) {
                Some(t1)
            } else {
                None
            },
            _ => None,
        }
    }
}

/// Head of a generated two-parameter function, up to its body.
pub open spec fn binary_head(name: Seq<char>, a: Seq<char>, b: Seq<char>, rt: Seq<char>) -> Seq<
    char,
> {
    "fn "@ + name + "("@ + a + ": "@ + rt + ", "@ + b + ": "@ + rt + ") -> "@ + rt + " {\n    "@
}

/// Tail of a generated two-parameter function and a `main` that calls it
/// with the default literal twice and prints the result.
pub open spec fn binary_tail(name: Seq<char>, d: Seq<char>) -> Seq<char> {
    "\n}\n\nfn main() {\n    let result = "@ + name + "("@ + d + ", "@ + d
        + ");\n    println!(\"{}\", result);\n}\n"@
}

/// No parameters, one line that prints a message: a function printing it
/// and a `main` calling it.
pub open spec fn print_only(f: FlowModel, lines: Seq<Seq<char>>) -> Option<Seq<char>> {
    if lines.len() != 1 {
        None
    } else {
        let l = lowercase(trim(lines[0]));
        print_only_from(f, l, lowercase(l))
    }
}

/// [`print_only`] given the lowercase trimmed line `l` and the lowercase
/// form `ll` of that, in which the message is looked for.
pub open spec fn print_only_from(f: FlowModel, l: Seq<char>, ll: Seq<char>) -> Option<Seq<char>> {
    if f.params.len() != 0 {
        None
    } else {
        match message_after_print(l, ll) {
            None => None,
            Some(m) => Some(
                "fn "@ + f.name + "() {\n    println!(\""@ + m + "\");\n}\n\nfn main() {\n    "@
                    + f.name + "();\n}\n"@,
            ),
        }
    }
}

/// One string parameter, one line mentioning `print`: a function printing
/// the quoted prefix of the line, if any, followed by the parameter.
pub open spec fn print_with_param(f: FlowModel, lines: Seq<Seq<char>>) -> Option<Seq<char>> {
    if lines.len() != 1 {
        None
    } else {
        let as_written = trim(lines[0]);
        print_with_param_from(f, as_written, lowercase(as_written))
    }
}

/// [`print_with_param`] given the trimmed line `as_written` and its
/// lowercase form `lower`.
pub open spec fn print_with_param_from(f: FlowModel, as_written: Seq<char>, lower: Seq<char>) -> Option<
    Seq<char>,
> {
    if f.params.len() != 1 {
        None
    } else {
        match f.params[0].ty {
            None => None,
            Some(t) => if !(t is Str) {
                None
            } else if !contains(lower, "print"@) {
                None
            } else {
                let prefix = match quoted_string(as_written) {
                    Some(p) => p,
                    None => Seq::empty(),
                };
                let pn = f.params[0].name;
                Some(
                    "fn "@ + f.name + "("@ + pn + ": String) {\n    println!(\""@ + prefix + "{}\", "@
                        + pn + ");\n}\n\nfn main() {\n    let "@ + pn
                        + " = String::from(\"test\");\n    "@ + f.name + "("@ + pn + ");\n}\n"@,
                )
            },
        }
    }
}

/// Two numeric parameters of one type, one line naming an arithmetic
/// operation: a function applying the operator to them.
pub open spec fn arithmetic(f: FlowModel, lines: Seq<Seq<char>>) -> Option<Seq<char>> {
    if lines.len() != 1 {
        None
    } else {
        arithmetic_from(f, lowercase(lines[0]))
    }
}

/// [`arithmetic`] given the lowercase form `l` of the line.
pub open spec fn arithmetic_from(f: FlowModel, l: Seq<char>) -> Option<Seq<char>> {
    if f.params.len() != 2 {
        None
    } else {
        match numeric_pair(f.params) {
            None => None,
            Some(t) => match operator_named(l) {
                None => None,
                Some(op) => {
                    let a = f.params[0].name;
                    let b = f.params[1].name;
                    Some(
                        binary_head(f.name, a, b, rust_type_name(t)) + a + " "@ + op + " "@ + b
                            + binary_tail(f.name, default_literal_text(t)),
                    )
                },
            },
        }
    }
}

/// The return type and expression for a literal, when it is an `i32`, an
/// `f32` written with a decimal point, `true`/`false`, or a text in double
/// quotes.
pub open spec fn literal_kind(value: Seq<char>) -> Option<(Seq<char>, Seq<char>)> {
    if parses_as_i32(value) {
        Some(("i32"@, value))
    } else if parses_as_f32(value) {
        if contains(value, "."@) {
            Some(("f32"@, value + "_f32"@))
        } else {
            None
        }
    } else if value == "true"@ || value == "false"@ {
        Some(("bool"@, value))
    } else if value.len() > 0 && value[0] == '"' && value.last() == '"' {
        Some(("String"@, "String::from("@ + value + ")"@))
    } else {
        None
    }
}

/// The literal of a `return` intent, given its lowercase trimmed form: what
/// follows `return ` or `returns `, trimmed, without trailing dots.
pub open spec fn value_after_return(l: Seq<char>) -> Option<Seq<char>> {
    let after = if starts_with(l, "return "@) {
        Some(l.skip(7))
    } else if starts_with(l, "returns "@) {
        Some(l.skip(8))
    } else {
        None
    };
    match after {
        None => None,
        Some(r) => {
            let v = trim_end_char(trim(r), '.');
            if v.len() == 0 {
                None
            } else {
                Some(v)
            }
        },
    }
}

/// No parameters, one line returning a literal: a function returning it.
pub open spec fn return_literal(f: FlowModel, lines: Seq<Seq<char>>) -> Option<Seq<char>> {
    if lines.len() != 1 {
        None
    } else {
        return_literal_from(f, lowercase(trim(lines[0])))
    }
}

/// [`return_literal`] given the lowercase trimmed line `l`.
pub open spec fn return_literal_from(f: FlowModel, l: Seq<char>) -> Option<Seq<char>> {
    if f.params.len() != 0 {
        None
    } else {
        match value_after_return(l) {
            None => None,
            Some(v) => match literal_kind(v) {
                None => None,
                Some((rt, expr)) => Some(
                    "fn "@ + f.name + "() -> "@ + rt + " {\n    "@ + expr
                        + "\n}\n\nfn main() {\n    let result = "@ + f.name
                        + "();\n    println!(\"{}\", result);\n}\n"@,
                ),
            },
        }
    }
}

/// Whether the lowercase intent asks for the larger value.
pub open spec fn asks_max(l: Seq<char>) -> bool {
    contains(l, "max"@) || contains(l, "larger"@) || contains(l, "greater"@) || contains(
        l,
        "bigger"@,
    ) || contains(l, "highest"@)
}

/// Whether the lowercase intent asks for the smaller value.
pub open spec fn asks_min(l: Seq<char>) -> bool {
    contains(l, "min"@) || contains(l, "smaller"@) || contains(l, "lesser"@) || contains(
        l,
        "lowest"@,
    )
}

/// Two numeric parameters of one type, one line asking for the larger or
/// smaller of them: a function comparing them (the larger wins when the line
/// asks for both).
pub open spec fn min_max(f: FlowModel, lines: Seq<Seq<char>>) -> Option<Seq<char>> {
    if lines.len() != 1 {
        None
    } else {
        min_max_from(f, lowercase(trim(lines[0])))
    }
}

/// [`min_max`] given the lowercase trimmed line `l`.
pub open spec fn min_max_from(f: FlowModel, l: Seq<char>) -> Option<Seq<char>> {
    if f.params.len() != 2 {
        None
    } else {
        match numeric_pair(f.params) {
            None => None,
            Some(t) => if !asks_max(l) && !asks_min(l) {
                None
            } else {
                let cmp = if asks_max(l) {
                    ">"@
                } else {
                    "<"@
                };
                let a = f.params[0].name;
                let b = f.params[1].name;
                Some(
                    binary_head(f.name, a, b, rust_type_name(t)) + "if "@ + a + " "@ + cmp + " "@ + b
                        + " { "@ + a + " } else { "@ + b + " }"@ + binary_tail(
                        f.name,
                        default_literal_text(t),
                    ),
                )
            },
        }
    }
}

/// The generated program for a flow: for inline, non-empty intent lines,
/// the first pattern that matches among print-only, print-with-parameter,
/// arithmetic, return-literal and min/max; otherwise `None`.
pub open spec fn template_for(f: FlowModel) -> Option<Seq<char>> {
    match f.implementation {
        ImplementationModel::Inline(lines) => if lines.len() == 0 {
            None
        } else if print_only(f, lines) is Some {
            print_only(f, lines)
        } else if print_with_param(f, lines) is Some {
            print_with_param(f, lines)
        } else if arithmetic(f, lines) is Some {
            arithmetic(f, lines)
        } else if return_literal(f, lines) is Some {
            return_literal(f, lines)
        } else {
            min_max(f, lines)
        },
        _ => None,
    }
}

// ---------------------------------------------------------------------------
// Executable generator.
// ---------------------------------------------------------------------------

/// The message of a print intent, given the intent and its lowercase form.
pub fn message_after_print_exec(line: &Vec<char>, lower: &Vec<char>) -> (r: Option<Vec<char>>)
    ensures
        r matches Some(m) ==> message_after_print(line@, lower@) == Some(m@),
        r is None ==> message_after_print(line@, lower@) is None,
{
    let pos = match find_exec(lower, "print") {
        None => {
            return None;
        },
        Some(pos) => pos,
    };
    proof {
        lemma_find_from_bounds(lower@, "print"@, 0);
    }
    if pos > line.len() || line.len() - pos < 5 {
        return None;
    }
    let after = slice_chars(line, pos + 5, line.len());
    assert(after@ =~= line@.skip(pos + 5));
    let rest = trim_start_chars(&after);
    let msg = if rest.len() > 0 && (rest[0] == '"' || rest[0] == '\'') {
        let q = rest[0];
        let inner = slice_chars(&rest, 1, rest.len());
        assert(inner@ =~= rest@.skip(1));
        match rfind_char_exec(&inner, q) {
            Some(end) => {
                proof {
                    lemma_rfind_bounds(inner@, q, inner@.len() as int);
                }
                let m = slice_chars(&inner, 0, end);
                assert(m@ =~= inner@.take(end as int));
                m
            },
            None => inner,
        }
    } else {
        rest
    };
    if msg.len() == 0 {
        None
    } else {
        Some(msg)
    }
}

fn quoted_with_exec(text: &Vec<char>, q: char) -> (r: Option<Vec<char>>)
    ensures
        r matches Some(x) ==> quoted_with(text@, q) == Some(x@),
        r is None ==> quoted_with(text@, q) is None,
{
    let n = text.len();
    let start = match find_char_exec(text, q, 0) {
        None => {
            return None;
        },
        Some(start) => start,
    };
    proof {
        lemma_find_char_bounds(text@, q, 0);
    }
    let rest = slice_chars(text, start + 1, n);
    assert(rest@ =~= text@.skip(start + 1));
    let end = match find_char_exec(&rest, q, 0) {
        None => {
            return None;
        },
        Some(end) => end,
    };
    proof {
        lemma_find_char_bounds(rest@, q, 0);
    }
    let x = slice_chars(&rest, 0, end);
    assert(x@ =~= rest@.take(end as int));
    let t = trim_chars(&x);
    if t.len() > 0 {
        Some(x)
    } else {
        None
    }
}

fn extract_quoted_string(text: &Vec<char>) -> (r: Option<Vec<char>>)
    ensures
        r matches Some(x) ==> quoted_string(text@) == Some(x@),
        r is None ==> quoted_string(text@) is None,
{
    match quoted_with_exec(text, '"') {
        Some(x) => Some(x),
        None => quoted_with_exec(text, '\''),
    }
}

fn rust_type(t: &Type) -> (r: &'static str)
    ensures
        r@ == rust_type_name(t@),
{
    match t {
        Type::I32 => "i32",
        Type::F32 => "f32",
        Type::Bool => "bool",
        Type::Str => "String",
        Type::Void => "()",
        _ => "i32",
    }
}

fn default_literal(t: &Type) -> (r: &'static str)
    ensures
        r@ == default_literal_text(t@),
{
    match t {
        Type::I32 => "1",
        Type::F32 => "1.0",
        Type::Bool => "true",
        Type::Str => "\"test\"",
        _ => "0",
    }
}

/// The arithmetic operator a lowercase intent names.
pub fn operator_named_exec(l: &Vec<char>) -> (r: Option<&'static str>)
    ensures
        r matches Some(op) ==> operator_named(l@) == Some(op@),
        r is None ==> operator_named(l@) is None,
{
    if contains_exec(l, "add") || contains_exec(l, "sum") || contains_exec(l, "plus")
        || contains_exec(l, "a + b") {
        Some("+")
    } else if contains_exec(l, "subtract") || contains_exec(l, "minus") || contains_exec(
        l,
        "a - b",
    ) || contains_exec(l, "difference") {
        Some("-")
    } else if contains_exec(l, "multiply") || contains_exec(l, "product") || contains_exec(
        l,
        "a * b",
    ) || contains_exec(l, "times") {
        Some("*")
    } else if contains_exec(l, "divide") || contains_exec(l, "a / b") || contains_exec(
        l,
        "quotient",
    ) {
        Some("/")
    } else {
        None
    }
}

fn numeric_pair_exec(params: &Vec<Param>) -> (r: Option<Type>)
    ensures
        r matches Some(t) ==> numeric_pair(params@.map_values(|p: Param| p@)) == Some(t@),
        r is None ==> numeric_pair(params@.map_values(|p: Param| p@)) is None,
{
    if params.len() != 2 {
        return None;
    }
    match (&params[0].ty, &params[1].ty) {
        (Some(Type::I32), Some(Type::I32)) => Some(Type::I32),
        (Some(Type::F32), Some(Type::F32)) => Some(Type::F32),
        _ => None,
    }
}

fn lines_chars(lines: &Vec<String>, k: usize) -> (r: Vec<char>)
    requires
        k < lines@.len(),
    ensures
        r@ == lines_model(lines@)[k as int],
{
    chars_of(lines[k].as_str())
}

fn try_print_only(flow: &Flow, lines: &Vec<String>) -> (r: Option<String>)
    ensures
        r matches Some(c) ==> print_only(flow@, lines_model(lines@)) == Some(c@),
        r is None ==> print_only(flow@, lines_model(lines@)) is None,
{
    if lines.len() != 1 {
        return None;
    }
    let raw = lines_chars(lines, 0);
    let t = trim_chars(&raw);
    let l = lowercase_chars(&t);
    let ll = lowercase_chars(&l);
    print_only_from_lower(flow, &l, &ll)
}

/// The print-only program for a flow, given its intent line lowercased and
/// trimmed (`l`) and the lowercase form of that (`ll`).
pub fn print_only_from_lower(flow: &Flow, l: &Vec<char>, ll: &Vec<char>) -> (r: Option<String>)
    ensures
        r matches Some(c) ==> print_only_from(flow@, l@, ll@) == Some(c@),
        r is None ==> print_only_from(flow@, l@, ll@) is None,
{
    if flow.params.len() != 0 {
        return None;
    }
    match message_after_print_exec(l, ll) {
        None => None,
        Some(m) => {
            let msg = string_from_chars(&m);
            let mut c = String::from_str("fn ");
            c.append(flow.name.as_str());
            c.append("() {\n    println!(\"");
            c.append(msg.as_str());
            c.append("\");\n}\n\nfn main() {\n    ");
            c.append(flow.name.as_str());
            c.append("();\n}\n");
            Some(c)
        },
    }
}

fn try_print_with_param(flow: &Flow, lines: &Vec<String>) -> (r: Option<String>)
    ensures
        r matches Some(c) ==> print_with_param(flow@, lines_model(lines@)) == Some(c@),
        r is None ==> print_with_param(flow@, lines_model(lines@)) is None,
{
    if lines.len() != 1 {
        return None;
    }
    let raw = lines_chars(lines, 0);
    let as_written = trim_chars(&raw);
    let lower = lowercase_chars(&as_written);
    print_with_param_from_lower(flow, &as_written, &lower)
}

/// The print-with-parameter program for a flow, given its trimmed intent
/// line and the lowercase form of that.
pub fn print_with_param_from_lower(flow: &Flow, as_written: &Vec<char>, lower: &Vec<char>) -> (r:
    Option<String>)
    ensures
        r matches Some(c) ==> print_with_param_from(flow@, as_written@, lower@) == Some(c@),
        r is None ==> print_with_param_from(flow@, as_written@, lower@) is None,
{
    if flow.params.len() != 1 {
        return None;
    }
    let param = &flow.params[0];
    match &param.ty {
        Some(Type::Str) => {},
        _ => {
            return None;
        },
    }
    if !contains_exec(lower, "print") {
        return None;
    }
    let prefix = match extract_quoted_string(as_written) {
        Some(p) => string_from_chars(&p),
        None => String::new(),
    };
    let pn = param.name.as_str();
    let mut c = String::from_str("fn ");
    c.append(flow.name.as_str());
    c.append("(");
    c.append(pn);
    c.append(": String) {\n    println!(\"");
    c.append(prefix.as_str());
    c.append("{}\", ");
    c.append(pn);
    c.append(");\n}\n\nfn main() {\n    let ");
    c.append(pn);
    c.append(" = String::from(\"test\");\n    ");
    c.append(flow.name.as_str());
    c.append("(");
    c.append(pn);
    c.append(");\n}\n");
    Some(c)
}

fn binary_head_exec(name: &str, a: &str, b: &str, rt: &str) -> (r: String)
    ensures
        r@ == binary_head(name@, a@, b@, rt@),
{
    let mut c = String::from_str("fn ");
    c.append(name);
    c.append("(");
    c.append(a);
    c.append(": ");
    c.append(rt);
    c.append(", ");
    c.append(b);
    c.append(": ");
    c.append(rt);
    c.append(") -> ");
    c.append(rt);
    c.append(" {\n    ");
    c
}

fn binary_tail_exec(c: &mut String, name: &str, d: &str)
    ensures
        final(c)@ == old(c)@ + binary_tail(name@, d@),
{
    c.append("\n}\n\nfn main() {\n    let result = ");
    c.append(name);
    c.append("(");
    c.append(d);
    c.append(", ");
    c.append(d);
    c.append(");\n    println!(\"{}\", result);\n}\n");
}

fn try_arithmetic(flow: &Flow, lines: &Vec<String>) -> (r: Option<String>)
    ensures
        r matches Some(c) ==> arithmetic(flow@, lines_model(lines@)) == Some(c@),
        r is None ==> arithmetic(flow@, lines_model(lines@)) is None,
{
    if lines.len() != 1 {
        return None;
    }
    let raw = lines_chars(lines, 0);
    let l = lowercase_chars(&raw);
    arithmetic_from_lower(flow, &l)
}

/// The arithmetic program for a flow, given the lowercase form of its
/// intent line.
pub fn arithmetic_from_lower(flow: &Flow, l: &Vec<char>) -> (r: Option<String>)
    ensures
        r matches Some(c) ==> arithmetic_from(flow@, l@) == Some(c@),
        r is None ==> arithmetic_from(flow@, l@) is None,
{
    if flow.params.len() != 2 {
        return None;
    }
    let t = match numeric_pair_exec(&flow.params) {
        None => {
            return None;
        },
        Some(t) => t,
    };
    let op = match operator_named_exec(l) {
        None => {
            return None;
        },
        Some(op) => op,
    };
    let a = flow.params[0].name.as_str();
    let b = flow.params[1].name.as_str();
    let mut c = binary_head_exec(flow.name.as_str(), a, b, rust_type(&t));
    c.append(a);
    c.append(" ");
    c.append(op);
    c.append(" ");
    c.append(b);
    binary_tail_exec(&mut c, flow.name.as_str(), default_literal(&t));
    Some(c)
}

/// The literal of a `return` intent, given its lowercase trimmed form.
pub fn value_after_return_exec(l: &Vec<char>) -> (r: Option<Vec<char>>)
    ensures
        r matches Some(v) ==> value_after_return(l@) == Some(v@),
        r is None ==> value_after_return(l@) is None,
{
    let after = if starts_with_exec(l, "return ") {
        proof {
            reveal_strlit("return ");
        }
        let r = slice_chars(l, 7, l.len());
        assert(r@ =~= l@.skip(7));
        r
    } else if starts_with_exec(l, "returns ") {
        proof {
            reveal_strlit("returns ");
        }
        let r = slice_chars(l, 8, l.len());
        assert(r@ =~= l@.skip(8));
        r
    } else {
        return None;
    };
    let tr = trim_chars(&after);
    let v = trim_end_char_exec(&tr, '.');
    if v.len() == 0 {
        None
    } else {
        Some(v)
    }
}

fn literal_kind_exec(value: &Vec<char>) -> (r: Option<(&'static str, String)>)
    ensures
        r matches Some((rt, e)) ==> literal_kind(value@) == Some((rt@, e@)),
        r is None ==> literal_kind(value@) is None,
{
    let text = string_from_chars(value);
    if parses_as_i32_exec(value) {
        Some(("i32", text))
    } else if parses_as_f32_exec(value) {
        if contains_exec(value, ".") {
            let mut e = text;
            e.append("_f32");
            Some(("f32", e))
        } else {
            None
        }
    } else if chars_equal(value, "true") || chars_equal(value, "false") {
        Some(("bool", text))
    } else if value.len() > 0 && value[0] == '"' && value[value.len() - 1] == '"' {
        let mut e = String::from_str("String::from(");
        e.append(text.as_str());
        e.append(")");
        Some(("String", e))
    } else {
        None
    }
}

fn try_return_literal(flow: &Flow, lines: &Vec<String>) -> (r: Option<String>)
    ensures
        r matches Some(c) ==> return_literal(flow@, lines_model(lines@)) == Some(c@),
        r is None ==> return_literal(flow@, lines_model(lines@)) is None,
{
    if lines.len() != 1 {
        return None;
    }
    let raw = lines_chars(lines, 0);
    let t = trim_chars(&raw);
    let l = lowercase_chars(&t);
    return_literal_from_lower(flow, &l)
}

/// The literal-returning program for a flow, given its intent line
/// lowercased and trimmed.
pub fn return_literal_from_lower(flow: &Flow, l: &Vec<char>) -> (r: Option<String>)
    ensures
        r matches Some(c) ==> return_literal_from(flow@, l@) == Some(c@),
        r is None ==> return_literal_from(flow@, l@) is None,
{
    if flow.params.len() != 0 {
        return None;
    }
    let v = match value_after_return_exec(l) {
        None => {
            return None;
        },
        Some(v) => v,
    };
    let (rt, expr) = match literal_kind_exec(&v) {
        None => {
            return None;
        },
        Some(k) => k,
    };
    let mut c = String::from_str("fn ");
    c.append(flow.name.as_str());
    c.append("() -> ");
    c.append(rt);
    c.append(" {\n    ");
    c.append(expr.as_str());
    c.append("\n}\n\nfn main() {\n    let result = ");
    c.append(flow.name.as_str());
    c.append("();\n    println!(\"{}\", result);\n}\n");
    Some(c)
}

/// Whether a lowercase intent asks for the larger value.
pub fn asks_max_exec(l: &Vec<char>) -> (r: bool)
    ensures
        r == asks_max(l@),
{
    contains_exec(l, "max") || contains_exec(l, "larger") || contains_exec(l, "greater")
        || contains_exec(l, "bigger") || contains_exec(l, "highest")
}

/// Whether a lowercase intent asks for the smaller value.
pub fn asks_min_exec(l: &Vec<char>) -> (r: bool)
    ensures
        r == asks_min(l@),
{
    contains_exec(l, "min") || contains_exec(l, "smaller") || contains_exec(l, "lesser")
        || contains_exec(l, "lowest")
}

fn try_min_max(flow: &Flow, lines: &Vec<String>) -> (r: Option<String>)
    ensures
        r matches Some(c) ==> min_max(flow@, lines_model(lines@)) == Some(c@),
        r is None ==> min_max(flow@, lines_model(lines@)) is None,
{
    if lines.len() != 1 {
        return None;
    }
    let raw = lines_chars(lines, 0);
    let tr = trim_chars(&raw);
    let l = lowercase_chars(&tr);
    min_max_from_lower(flow, &l)
}

/// The larger/smaller program for a flow, given its intent line lowercased
/// and trimmed.
pub fn min_max_from_lower(flow: &Flow, l: &Vec<char>) -> (r: Option<String>)
    ensures
        r matches Some(c) ==> min_max_from(flow@, l@) == Some(c@),
        r is None ==> min_max_from(flow@, l@) is None,
{
    if flow.params.len() != 2 {
        return None;
    }
    let t = match numeric_pair_exec(&flow.params) {
        None => {
            return None;
        },
        Some(t) => t,
    };
    let is_max = asks_max_exec(l);
    let is_min = asks_min_exec(l);
    if !is_max && !is_min {
        return None;
    }
    let cmp = if is_max {
        ">"
    } else {
        "<"
    };
    let a = flow.params[0].name.as_str();
    let b = flow.params[1].name.as_str();
    let mut c = binary_head_exec(flow.name.as_str(), a, b, rust_type(&t));
    c.append("if ");
    c.append(a);
    c.append(" ");
    c.append(cmp);
    c.append(" ");
    c.append(b);
    c.append(" { ");
    c.append(a);
    c.append(" } else { ");
    c.append(b);
    c.append(" }");
    binary_tail_exec(&mut c, flow.name.as_str(), default_literal(&t));
    Some(c)
}

/// Generates a complete Rust program for a flow whose intent matches one of
/// the simple patterns, trying in order: printing a message (no parameters),
/// printing a parameter with a quoted prefix (one string parameter), an
/// arithmetic operation or a larger/smaller choice on two numeric
/// parameters of one type, and returning a literal (no parameters).
/// Returns `None` when the flow is not implemented by intent lines, has
/// none, or matches no pattern.
pub fn try_template_generate(flow: &Flow) -> (r: Option<String>)
    ensures
        r matches Some(c) ==> template_for(flow@) == Some(c@),
        r is None ==> template_for(flow@) is None,
{
    let lines = match &flow.implementation {
        Implementation::Inline(lines) => lines,
        _ => {
            return None;
        },
    };
    if lines.len() == 0 {
        return None;
    }
    if let Some(code) = try_print_only(flow, lines) {
        return Some(code);
    }
    if let Some(code) = try_print_with_param(flow, lines) {
        return Some(code);
    }
    if let Some(code) = try_arithmetic(flow, lines) {
        return Some(code);
    }
    if let Some(code) = try_return_literal(flow, lines) {
        return Some(code);
    }
    try_min_max(flow, lines)
}

} // verus!
