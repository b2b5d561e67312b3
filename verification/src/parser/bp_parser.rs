//! Parser for blueprint files: imports, `schema` declarations with typed
//! fields, `flow` signatures with empty bodies, and `enum` declarations.

use vstd::prelude::*;
use crate::text::{occurs_at, slice_chars, string_from_chars, chars_of};
use crate::parser::scan::{
    CharClass, in_class, scan, lemma_scan_bounds, scan_exec, char_at, char_at_exec, lit_end,
};
use crate::parser::ast::{
    Program, Declaration, Flow, Implementation, Schema, Field, Param, Type, TypeModel,
    ParamModel, FieldModel, SchemaModel, DeclarationModel, FlowModel, ImplementationModel,
    ProgramModel, opt_type_model, EnumDecl, Variant, EnumModel, VariantModel,
};
use crate::parser::ais_parser::{import_at, import_exec};
use crate::parser::ParseError;

verus! {

/// What a parser that can also get stuck yields: a value and where reading
/// stopped, a mismatch that lets an enclosing choice try its next option,
/// or a stop that ends the whole parse.
pub enum Outcome<T> {
    Done(T, int),
    Fail,
    Stuck,
}

// ---------------------------------------------------------------------------
// Grammar.
// ---------------------------------------------------------------------------

/// A type name: one of the keywords `i32`, `f32`, `bool`, `str`, `void`
/// (matched as prefixes), else a run of ASCII letters and digits.
pub open spec fn type_at(s: Seq<char>, i: int) -> Option<(TypeModel, int)> {
    if occurs_at(s, "i32"@, i) {
        Some((TypeModel::I32, i + "i32"@.len()))
    } else if occurs_at(s, "f32"@, i) {
        Some((TypeModel::F32, i + "f32"@.len()))
    } else if occurs_at(s, "bool"@, i) {
        Some((TypeModel::Bool, i + "bool"@.len()))
    } else if occurs_at(s, "str"@, i) {
        Some((TypeModel::Str, i + "str"@.len()))
    } else if occurs_at(s, "void"@, i) {
        Some((TypeModel::Void, i + "void"@.len()))
    } else {
        let e = scan(s, i, CharClass::Alnum);
        if e > i {
            Some((TypeModel::Custom(s.subrange(i, e)), e))
        } else {
            None
        }
    }
}

/// The type keywords name the primitive types: `i32`, `f32`, `bool`,
/// `str` and `void` written at `i` read as `I32`, `F32`, `Bool`, `Str` and
/// `Void`, ending right after the keyword; any other run of letters and
/// digits reads as a custom type of that name.
pub proof fn lemma_type_keywords(s: Seq<char>, i: int)
    requires
        0 <= i <= s.len(),
    ensures
        occurs_at(s, "i32"@, i) ==> type_at(s, i) == Some((TypeModel::I32, i + 3)),
        occurs_at(s, "f32"@, i) ==> type_at(s, i) == Some((TypeModel::F32, i + 3)),
        occurs_at(s, "bool"@, i) ==> type_at(s, i) == Some((TypeModel::Bool, i + 4)),
        occurs_at(s, "str"@, i) ==> type_at(s, i) == Some((TypeModel::Str, i + 3)),
        occurs_at(s, "void"@, i) ==> type_at(s, i) == Some((TypeModel::Void, i + 4)),
        type_at(s, i) matches Some((TypeModel::Custom(n), e)) ==> {
            &&& n == s.subrange(i, e)
            &&& i < e
            &&& forall|k: int| i <= k < e ==> in_class(CharClass::Alnum, #[trigger] s[k])
            &&& !occurs_at(s, "i32"@, i) && !occurs_at(s, "f32"@, i)
            &&& !occurs_at(s, "bool"@, i) && !occurs_at(s, "str"@, i)
            &&& !occurs_at(s, "void"@, i)
        },
{
    reveal_strlit("i32");
    reveal_strlit("f32");
    reveal_strlit("bool");
    reveal_strlit("str");
    reveal_strlit("void");
    lemma_scan_bounds(s, i, CharClass::Alnum);
    lemma_occurs_first_char(s, "i32"@, i);
    lemma_occurs_first_char(s, "f32"@, i);
    lemma_occurs_first_char(s, "bool"@, i);
    lemma_occurs_first_char(s, "str"@, i);
    lemma_occurs_first_char(s, "void"@, i);
}

proof fn lemma_occurs_first_char(s: Seq<char>, p: Seq<char>, i: int)
    requires
        p.len() > 0,
    ensures
        occurs_at(s, p, i) ==> s[i] == p[0],
{
    if occurs_at(s, p, i) {
        assert(s.subrange(i, i + p.len())[0] == s[i]);
    }
}

/// `NAME : TYPE`, with optional whitespace around the colon.
pub open spec fn field_at(s: Seq<char>, i: int) -> Option<(FieldModel, int)> {
    let n = scan(s, i, CharClass::Alnum);
    if n > i {
        let m1 = scan(s, n, CharClass::Multispace);
        if char_at(s, m1, ':') {
            match type_at(s, scan(s, m1 + 1, CharClass::Multispace)) {
                Some((t, e)) => Some((FieldModel { name: s.subrange(i, n), ty: t }, e)),
                None => None,
            }
        } else {
            None
        }
    } else {
        None
    }
}

/// `NAME`, whitespace, then optionally `: TYPE`.
pub open spec fn param_at(s: Seq<char>, i: int) -> Option<(ParamModel, int)> {
    let n = scan(s, i, CharClass::Alnum);
    if n > i {
        let m = scan(s, n, CharClass::Multispace);
        if char_at(s, m, ':') {
            match type_at(s, scan(s, m + 1, CharClass::Multispace)) {
                Some((t, e)) => Some((ParamModel { name: s.subrange(i, n), ty: Some(t) }, e)),
                None => Some((ParamModel { name: s.subrange(i, n), ty: None }, m)),
            }
        } else {
            Some((ParamModel { name: s.subrange(i, n), ty: None }, m))
        }
    } else {
        None
    }
}

/// A list separator: whitespace, an optional comma, whitespace. It may read
/// nothing.
pub open spec fn sep_end(s: Seq<char>, i: int) -> int {
    let m = scan(s, i, CharClass::Multispace);
    let c = if char_at(s, m, ',') {
        m + 1
    } else {
        m
    };
    scan(s, c, CharClass::Multispace)
}

pub proof fn lemma_type_progress(s: Seq<char>, i: int)
    requires
        0 <= i <= s.len(),
    ensures
        type_at(s, i) matches Some((_, e)) ==> i < e <= s.len(),
{
    reveal_strlit("i32");
    reveal_strlit("f32");
    reveal_strlit("bool");
    reveal_strlit("str");
    reveal_strlit("void");
    lemma_scan_bounds(s, i, CharClass::Alnum);
}

pub proof fn lemma_field_param_progress(s: Seq<char>, i: int)
    requires
        0 <= i <= s.len(),
    ensures
        field_at(s, i) matches Some((_, e)) ==> i < e <= s.len(),
        param_at(s, i) matches Some((_, e)) ==> i < e <= s.len(),
{
    lemma_scan_bounds(s, i, CharClass::Alnum);
    let n = scan(s, i, CharClass::Alnum);
    lemma_scan_bounds(s, n, CharClass::Multispace);
    let m = scan(s, n, CharClass::Multispace);
    if char_at(s, m, ':') {
        lemma_scan_bounds(s, m + 1, CharClass::Multispace);
        lemma_type_progress(s, scan(s, m + 1, CharClass::Multispace));
    }
}

pub proof fn lemma_sep_bounds(s: Seq<char>, i: int)
    requires
        0 <= i <= s.len(),
    ensures
        i <= sep_end(s, i) <= s.len(),
{
    lemma_scan_bounds(s, i, CharClass::Multispace);
    let m = scan(s, i, CharClass::Multispace);
    let c = if char_at(s, m, ',') {
        m + 1
    } else {
        m
    };
    lemma_scan_bounds(s, c, CharClass::Multispace);
}

/// After the first field: separator and field, repeatedly. A separator
/// that reads nothing stops the parse; a field that does not follow puts
/// reading back before its separator.
pub open spec fn fields_rest(s: Seq<char>, i: int, acc: Seq<FieldModel>) -> Outcome<
    Seq<FieldModel>,
>
    decreases s.len() - i,
{
    if 0 <= i <= s.len() {
        let j = sep_end(s, i);
        if j == i {
            Outcome::Stuck
        } else {
            match field_at(s, j) {
                None => Outcome::Done(acc, i),
                Some((f, e)) => {
                    proof {
                        lemma_sep_bounds(s, i);
                        lemma_field_param_progress(s, j);
                    }
                    fields_rest(s, e, acc.push(f))
                },
            }
        }
    } else {
        Outcome::Done(acc, i)
    }
}

/// Zero or more fields separated by [`sep_end`].
pub open spec fn fields_list(s: Seq<char>, i: int) -> Outcome<Seq<FieldModel>> {
    match field_at(s, i) {
        None => Outcome::Done(Seq::empty(), i),
        Some((f, e)) => fields_rest(s, e, seq![f]),
    }
}

/// After the first parameter: separator and parameter, repeatedly, as for
/// fields.
pub open spec fn params_rest(s: Seq<char>, i: int, acc: Seq<ParamModel>) -> Outcome<
    Seq<ParamModel>,
>
    decreases s.len() - i,
{
    if 0 <= i <= s.len() {
        let j = sep_end(s, i);
        if j == i {
            Outcome::Stuck
        } else {
            match param_at(s, j) {
                None => Outcome::Done(acc, i),
                Some((p, e)) => {
                    proof {
                        lemma_sep_bounds(s, i);
                        lemma_field_param_progress(s, j);
                    }
                    params_rest(s, e, acc.push(p))
                },
            }
        }
    } else {
        Outcome::Done(acc, i)
    }
}

/// Zero or more parameters separated by [`sep_end`].
pub open spec fn params_list(s: Seq<char>, i: int) -> Outcome<Seq<ParamModel>> {
    match param_at(s, i) {
        None => Outcome::Done(Seq::empty(), i),
        Some((p, e)) => params_rest(s, e, seq![p]),
    }
}

/// `schema NAME { FIELDS }`.
pub open spec fn schema_at(s: Seq<char>, i: int) -> Outcome<SchemaModel> {
    if !occurs_at(s, "schema"@, i) {
        Outcome::Fail
    } else {
        let k = i + "schema"@.len();
        let a = scan(s, k, CharClass::Space);
        let n = scan(s, a, CharClass::Alnum);
        let m1 = scan(s, n, CharClass::Multispace);
        if a > k && n > a && char_at(s, m1, '{') {
            match fields_list(s, scan(s, m1 + 1, CharClass::Multispace)) {
                Outcome::Done(fs, e) => {
                    let m3 = scan(s, e, CharClass::Multispace);
                    if char_at(s, m3, '}') {
                        Outcome::Done(SchemaModel { name: s.subrange(a, n), fields: fs }, m3 + 1)
                    } else {
                        Outcome::Fail
                    }
                },
                Outcome::Fail => Outcome::Fail,
                Outcome::Stuck => Outcome::Stuck,
            }
        } else {
            Outcome::Fail
        }
    }
}

/// The optional `-> TYPE` of a flow at `i`, and where it ends.
pub open spec fn return_type_at(s: Seq<char>, i: int) -> (Option<TypeModel>, int) {
    if occurs_at(s, "->"@, i) {
        match type_at(s, scan(s, i + "->"@.len(), CharClass::Multispace)) {
            Some((t, e)) => (Some(t), e),
            None => (None, i),
        }
    } else {
        (None, i)
    }
}

/// `flow NAME ( PARAMS ) [-> TYPE] { }`.
pub open spec fn flow_sig_at(s: Seq<char>, i: int) -> Outcome<FlowModel> {
    if !occurs_at(s, "flow"@, i) {
        Outcome::Fail
    } else {
        let k = i + "flow"@.len();
        let a = scan(s, k, CharClass::Space);
        let n = scan(s, a, CharClass::Alnum);
        let m1 = scan(s, n, CharClass::Multispace);
        if a > k && n > a && char_at(s, m1, '(') {
            match params_list(s, m1 + 1) {
                Outcome::Done(ps, e) => {
                    if char_at(s, e, ')') {
                        let (ret, r) = return_type_at(s, scan(s, e + 1, CharClass::Multispace));
                        let m3 = scan(s, r, CharClass::Multispace);
                        let m4 = scan(s, m3 + 1, CharClass::Multispace);
                        if char_at(s, m3, '{') && char_at(s, m4, '}') {
                            Outcome::Done(
                                FlowModel {
                                    name: s.subrange(a, n),
                                    params: ps,
                                    return_ty: ret,
                                    implementation: ImplementationModel::Empty,
                                },
                                m4 + 1,
                            )
                        } else {
                            Outcome::Fail
                        }
                    } else {
                        Outcome::Fail
                    }
                },
                Outcome::Fail => Outcome::Fail,
                Outcome::Stuck => Outcome::Stuck,
            }
        } else {
            Outcome::Fail
        }
    }
}

/// Where reading goes on after a list item that ends at `e`: past a comma
/// that follows it after whitespace, else right after the item.
pub open spec fn after_item(s: Seq<char>, e: int) -> int {
    let j = scan(s, e, CharClass::Multispace);
    if char_at(s, j, ',') {
        j + 1
    } else {
        e
    }
}

pub proof fn lemma_after_item_bounds(s: Seq<char>, e: int)
    requires
        0 <= e <= s.len(),
    ensures
        e <= after_item(s, e) <= s.len(),
{
    lemma_scan_bounds(s, e, CharClass::Multispace);
}

/// Types of a tuple variant, from `i`: each after whitespace, each
/// optionally followed by a comma. The list ends before whitespace that no
/// type follows.
pub open spec fn types_from(s: Seq<char>, i: int, acc: Seq<TypeModel>) -> (Seq<TypeModel>, int)
    decreases s.len() - i,
{
    if 0 <= i <= s.len() {
        let m = scan(s, i, CharClass::Multispace);
        match type_at(s, m) {
            None => (acc, i),
            Some((t, e)) => {
                proof {
                    lemma_scan_bounds(s, i, CharClass::Multispace);
                    lemma_type_progress(s, m);
                    lemma_after_item_bounds(s, e);
                }
                types_from(s, after_item(s, e), acc.push(t))
            },
        }
    } else {
        (acc, i)
    }
}

/// Fields of a struct variant, from `i`, listed as [`types_from`] lists
/// types.
pub open spec fn named_fields_from(s: Seq<char>, i: int, acc: Seq<FieldModel>) -> (
    Seq<FieldModel>,
    int,
)
    decreases s.len() - i,
{
    if 0 <= i <= s.len() {
        let m = scan(s, i, CharClass::Multispace);
        match field_at(s, m) {
            None => (acc, i),
            Some((f, e)) => {
                proof {
                    lemma_scan_bounds(s, i, CharClass::Multispace);
                    lemma_field_param_progress(s, m);
                    lemma_after_item_bounds(s, e);
                }
                named_fields_from(s, after_item(s, e), acc.push(f))
            },
        }
    } else {
        (acc, i)
    }
}

pub proof fn lemma_types_from_bounds(s: Seq<char>, i: int, acc: Seq<TypeModel>)
    requires
        0 <= i <= s.len(),
    ensures
        i <= types_from(s, i, acc).1 <= s.len(),
    decreases s.len() - i,
{
    lemma_scan_bounds(s, i, CharClass::Multispace);
    let m = scan(s, i, CharClass::Multispace);
    lemma_type_progress(s, m);
    if let Some((t, e)) = type_at(s, m) {
        lemma_after_item_bounds(s, e);
        lemma_types_from_bounds(s, after_item(s, e), acc.push(t));
    }
}

pub proof fn lemma_named_fields_from_bounds(s: Seq<char>, i: int, acc: Seq<FieldModel>)
    requires
        0 <= i <= s.len(),
    ensures
        i <= named_fields_from(s, i, acc).1 <= s.len(),
    decreases s.len() - i,
{
    lemma_scan_bounds(s, i, CharClass::Multispace);
    let m = scan(s, i, CharClass::Multispace);
    lemma_field_param_progress(s, m);
    if let Some((f, e)) = field_at(s, m) {
        lemma_after_item_bounds(s, e);
        lemma_named_fields_from_bounds(s, after_item(s, e), acc.push(f));
    }
}

/// A variant: a name, then after whitespace either `( TYPES )`, or
/// `{ FIELDS }`, or nothing (a unit variant, ending right after its name).
pub open spec fn variant_at(s: Seq<char>, i: int) -> Option<(VariantModel, int)> {
    let n = scan(s, i, CharClass::Alnum);
    if n <= i {
        None
    } else {
        let name = s.subrange(i, n);
        let k = scan(s, n, CharClass::Multispace);
        if char_at(s, k, '(') {
            let (ts, e) = types_from(s, k + 1, Seq::empty());
            let c = scan(s, e, CharClass::Multispace);
            if char_at(s, c, ')') {
                Some((VariantModel::Tuple(name, ts), c + 1))
            } else {
                None
            }
        } else if char_at(s, k, '{') {
            let (fs, e) = named_fields_from(s, k + 1, Seq::empty());
            let c = scan(s, e, CharClass::Multispace);
            if char_at(s, c, '}') {
                Some((VariantModel::Struct(name, fs), c + 1))
            } else {
                None
            }
        } else {
            Some((VariantModel::Unit(name), n))
        }
    }
}

pub proof fn lemma_variant_progress(s: Seq<char>, i: int)
    requires
        0 <= i <= s.len(),
    ensures
        variant_at(s, i) matches Some((_, e)) ==> i < e <= s.len(),
{
    lemma_scan_bounds(s, i, CharClass::Alnum);
    let n = scan(s, i, CharClass::Alnum);
    lemma_scan_bounds(s, n, CharClass::Multispace);
    let k = scan(s, n, CharClass::Multispace);
    if char_at(s, k, '(') {
        lemma_types_from_bounds(s, k + 1, Seq::empty());
        lemma_scan_bounds(s, types_from(s, k + 1, Seq::empty()).1, CharClass::Multispace);
    } else if char_at(s, k, '{') {
        lemma_named_fields_from_bounds(s, k + 1, Seq::empty());
        lemma_scan_bounds(s, named_fields_from(s, k + 1, Seq::empty()).1, CharClass::Multispace);
    }
}

/// The variants of an enumeration, from `i`, listed as [`types_from`]
/// lists types.
pub open spec fn variants_from(s: Seq<char>, i: int, acc: Seq<VariantModel>) -> (
    Seq<VariantModel>,
    int,
)
    decreases s.len() - i,
{
    if 0 <= i <= s.len() {
        let m = scan(s, i, CharClass::Multispace);
        match variant_at(s, m) {
            None => (acc, i),
            Some((v, e)) => {
                proof {
                    lemma_scan_bounds(s, i, CharClass::Multispace);
                    lemma_variant_progress(s, m);
                    lemma_after_item_bounds(s, e);
                }
                variants_from(s, after_item(s, e), acc.push(v))
            },
        }
    } else {
        (acc, i)
    }
}

pub proof fn lemma_variants_from_bounds(s: Seq<char>, i: int, acc: Seq<VariantModel>)
    requires
        0 <= i <= s.len(),
    ensures
        i <= variants_from(s, i, acc).1 <= s.len(),
    decreases s.len() - i,
{
    lemma_scan_bounds(s, i, CharClass::Multispace);
    let m = scan(s, i, CharClass::Multispace);
    lemma_variant_progress(s, m);
    if let Some((v, e)) = variant_at(s, m) {
        lemma_after_item_bounds(s, e);
        lemma_variants_from_bounds(s, after_item(s, e), acc.push(v));
    }
}

/// `enum NAME { VARIANTS }`.
pub open spec fn enum_at(s: Seq<char>, i: int) -> Option<(EnumModel, int)> {
    if !occurs_at(s, "enum"@, i) {
        None
    } else {
        let k = i + "enum"@.len();
        let a = scan(s, k, CharClass::Space);
        let n = scan(s, a, CharClass::Alnum);
        let m1 = scan(s, n, CharClass::Multispace);
        if a > k && n > a && char_at(s, m1, '{') {
            let (vs, e) = variants_from(s, m1 + 1, Seq::empty());
            let c = scan(s, e, CharClass::Multispace);
            if char_at(s, c, '}') {
                Some((EnumModel { name: s.subrange(a, n), variants: vs }, c + 1))
            } else {
                None
            }
        } else {
            None
        }
    }
}

pub proof fn lemma_enum_progress(s: Seq<char>, i: int)
    requires
        0 <= i <= s.len(),
    ensures
        enum_at(s, i) matches Some((_, e)) ==> i < e <= s.len(),
{
    if occurs_at(s, "enum"@, i) {
        let k = i + "enum"@.len();
        lemma_scan_bounds(s, k, CharClass::Space);
        let a = scan(s, k, CharClass::Space);
        lemma_scan_bounds(s, a, CharClass::Alnum);
        let n = scan(s, a, CharClass::Alnum);
        lemma_scan_bounds(s, n, CharClass::Multispace);
        let m1 = scan(s, n, CharClass::Multispace);
        if a > k && n > a && char_at(s, m1, '{') {
            lemma_variants_from_bounds(s, m1 + 1, Seq::empty());
            lemma_scan_bounds(s, variants_from(s, m1 + 1, Seq::empty()).1, CharClass::Multispace);
        }
    }
}

/// One declaration after whitespace: an import, a schema, a flow or an
/// enumeration, tried in that order.
pub open spec fn declaration_at(s: Seq<char>, i: int) -> Outcome<DeclarationModel> {
    let m = scan(s, i, CharClass::Multispace);
    match import_at(s, m) {
        Some((p, e)) => Outcome::Done(DeclarationModel::Import(p), e),
        None => match schema_at(s, m) {
            Outcome::Done(sc, e) => Outcome::Done(DeclarationModel::Schema(sc), e),
            Outcome::Stuck => Outcome::Stuck,
            Outcome::Fail => match flow_sig_at(s, m) {
                Outcome::Done(f, e) => Outcome::Done(DeclarationModel::Flow(f), e),
                Outcome::Stuck => Outcome::Stuck,
                Outcome::Fail => match enum_at(s, m) {
                    Some((en, e)) => Outcome::Done(DeclarationModel::Enum(en), e),
                    None => Outcome::Fail,
                },
            },
        },
    }
}

pub proof fn lemma_declaration_progress(s: Seq<char>, i: int)
    requires
        0 <= i <= s.len(),
    ensures
        declaration_at(s, i) matches Outcome::Done(_, e) ==> i < e <= s.len(),
{
    lemma_scan_bounds(s, i, CharClass::Multispace);
    let m = scan(s, i, CharClass::Multispace);
    lemma_import_progress(s, m);
    lemma_schema_progress(s, m);
    lemma_flow_sig_progress(s, m);
    lemma_enum_progress(s, m);
}

pub proof fn lemma_import_progress(s: Seq<char>, m: int)
    requires
        0 <= m <= s.len(),
    ensures
        import_at(s, m) matches Some((_, e)) ==> m < e <= s.len(),
{
    reveal_strlit("import");
    if occurs_at(s, "import"@, m) {
        let k = m + "import"@.len();
        lemma_scan_bounds(s, k, CharClass::Space);
        let a = scan(s, k, CharClass::Space);
        if a > k && char_at(s, a, '"') {
            lemma_scan_bounds(s, a + 1, CharClass::NotQuote);
        }
    }
}

pub proof fn lemma_fields_rest_bounds(s: Seq<char>, i: int, acc: Seq<FieldModel>)
    requires
        0 <= i <= s.len(),
    ensures
        fields_rest(s, i, acc) matches Outcome::Done(_, e) ==> i <= e <= s.len(),
    decreases s.len() - i,
{
    lemma_sep_bounds(s, i);
    let j = sep_end(s, i);
    if j != i {
        lemma_field_param_progress(s, j);
        if let Some((f, e)) = field_at(s, j) {
            lemma_fields_rest_bounds(s, e, acc.push(f));
        }
    }
}

pub proof fn lemma_params_rest_bounds(s: Seq<char>, i: int, acc: Seq<ParamModel>)
    requires
        0 <= i <= s.len(),
    ensures
        params_rest(s, i, acc) matches Outcome::Done(_, e) ==> i <= e <= s.len(),
    decreases s.len() - i,
{
    lemma_sep_bounds(s, i);
    let j = sep_end(s, i);
    if j != i {
        lemma_field_param_progress(s, j);
        if let Some((p, e)) = param_at(s, j) {
            lemma_params_rest_bounds(s, e, acc.push(p));
        }
    }
}

pub proof fn lemma_schema_progress(s: Seq<char>, i: int)
    requires
        0 <= i <= s.len(),
    ensures
        schema_at(s, i) matches Outcome::Done(_, e) ==> i < e <= s.len(),
{
    if occurs_at(s, "schema"@, i) {
        let k = i + "schema"@.len();
        lemma_scan_bounds(s, k, CharClass::Space);
        let a = scan(s, k, CharClass::Space);
        lemma_scan_bounds(s, a, CharClass::Alnum);
        let n = scan(s, a, CharClass::Alnum);
        lemma_scan_bounds(s, n, CharClass::Multispace);
        let m1 = scan(s, n, CharClass::Multispace);
        if a > k && n > a && char_at(s, m1, '{') {
            lemma_scan_bounds(s, m1 + 1, CharClass::Multispace);
            let m2 = scan(s, m1 + 1, CharClass::Multispace);
            lemma_field_param_progress(s, m2);
            if let Some((f, e)) = field_at(s, m2) {
                lemma_fields_rest_bounds(s, e, seq![f]);
            }
            if let Outcome::Done(fs, e) = fields_list(s, m2) {
                lemma_scan_bounds(s, e, CharClass::Multispace);
            }
        }
    }
}

pub proof fn lemma_flow_sig_progress(s: Seq<char>, i: int)
    requires
        0 <= i <= s.len(),
    ensures
        flow_sig_at(s, i) matches Outcome::Done(_, e) ==> i < e <= s.len(),
{
    if occurs_at(s, "flow"@, i) {
        let k = i + "flow"@.len();
        lemma_scan_bounds(s, k, CharClass::Space);
        let a = scan(s, k, CharClass::Space);
        lemma_scan_bounds(s, a, CharClass::Alnum);
        let n = scan(s, a, CharClass::Alnum);
        lemma_scan_bounds(s, n, CharClass::Multispace);
        let m1 = scan(s, n, CharClass::Multispace);
        if a > k && n > a && char_at(s, m1, '(') {
            lemma_field_param_progress(s, m1 + 1);
            if let Some((p, e)) = param_at(s, m1 + 1) {
                lemma_params_rest_bounds(s, e, seq![p]);
            }
            if let Outcome::Done(ps, e) = params_list(s, m1 + 1) {
                if char_at(s, e, ')') {
                    lemma_scan_bounds(s, e + 1, CharClass::Multispace);
                    let m2 = scan(s, e + 1, CharClass::Multispace);
                    if occurs_at(s, "->"@, m2) {
                        lemma_scan_bounds(s, m2 + "->"@.len(), CharClass::Multispace);
                        lemma_type_progress(s, scan(s, m2 + "->"@.len(), CharClass::Multispace));
                    }
                    let r = return_type_at(s, m2).1;
                    lemma_scan_bounds(s, r, CharClass::Multispace);
                    let m3 = scan(s, r, CharClass::Multispace);
                    if char_at(s, m3, '{') {
                        lemma_scan_bounds(s, m3 + 1, CharClass::Multispace);
                    }
                }
            }
        }
    }
}

/// Zero or more declarations.
pub open spec fn declarations_from(s: Seq<char>, i: int) -> Outcome<Seq<DeclarationModel>>
    decreases s.len() - i,
{
    if 0 <= i <= s.len() {
        match declaration_at(s, i) {
            Outcome::Fail => Outcome::Done(Seq::empty(), i),
            Outcome::Stuck => Outcome::Stuck,
            Outcome::Done(d, e) => {
                proof {
                    lemma_declaration_progress(s, i);
                }
                match declarations_from(s, e) {
                    Outcome::Done(ds, end) => Outcome::Done(seq![d] + ds, end),
                    Outcome::Stuck => Outcome::Stuck,
                    Outcome::Fail => Outcome::Fail,
                }
            },
        }
    } else {
        Outcome::Done(Seq::empty(), i)
    }
}

/// A whole blueprint: whitespace, declarations, whitespace.
pub open spec fn bp_parse(s: Seq<char>) -> Outcome<ProgramModel> {
    match declarations_from(s, scan(s, 0, CharClass::Multispace)) {
        Outcome::Done(ds, e) => Outcome::Done(
            ProgramModel { declarations: ds },
            scan(s, e, CharClass::Multispace),
        ),
        Outcome::Stuck => Outcome::Stuck,
        Outcome::Fail => Outcome::Fail,
    }
}

proof fn lemma_declarations_never_fail(s: Seq<char>, i: int)
    ensures
        declarations_from(s, i) !is Fail,
    decreases s.len() - i,
{
    if 0 <= i <= s.len() {
        lemma_declaration_progress(s, i);
        if let Outcome::Done(d, e) = declaration_at(s, i) {
            lemma_declarations_never_fail(s, e);
        }
    }
}

/// A blueprint parse never fails outright: a declaration that does not
/// match ends the list, so the parse either succeeds or is stopped by a
/// separator that reads nothing.
pub proof fn lemma_bp_parse_never_fails(s: Seq<char>)
    ensures
        bp_parse(s) !is Fail,
{
    lemma_declarations_never_fail(s, scan(s, 0, CharClass::Multispace));
}

// ---------------------------------------------------------------------------
// Executable parser.
// ---------------------------------------------------------------------------

/// Executable counterpart of [`Outcome`].
enum Step<T> {
    Done(T, usize),
    Fail,
    Stuck,
}

fn type_exec(v: &Vec<char>, i: usize) -> (r: Option<(Type, usize)>)
    requires
        i <= v@.len(),
    ensures
        r matches Some((t, e)) ==> type_at(v@, i as int) == Some((t@, e as int)),
        r is None ==> type_at(v@, i as int) is None,
{
    if let Some(e) = lit_end(v, i, "i32") {
        return Some((Type::I32, e));
    }
    if let Some(e) = lit_end(v, i, "f32") {
        return Some((Type::F32, e));
    }
    if let Some(e) = lit_end(v, i, "bool") {
        return Some((Type::Bool, e));
    }
    if let Some(e) = lit_end(v, i, "str") {
        return Some((Type::Str, e));
    }
    if let Some(e) = lit_end(v, i, "void") {
        return Some((Type::Void, e));
    }
    let e = scan_exec(v, i, CharClass::Alnum);
    if e > i {
        let sub = slice_chars(v, i, e);
        Some((Type::Custom(string_from_chars(&sub)), e))
    } else {
        None
    }
}

fn field_exec(v: &Vec<char>, i: usize) -> (r: Option<(Field, usize)>)
    requires
        i <= v@.len(),
    ensures
        r matches Some((f, e)) ==> field_at(v@, i as int) == Some((f@, e as int)),
        r is None ==> field_at(v@, i as int) is None,
{
    let n = scan_exec(v, i, CharClass::Alnum);
    if n > i {
        let m1 = scan_exec(v, n, CharClass::Multispace);
        if char_at_exec(v, m1, ':') {
            let m2 = scan_exec(v, m1 + 1, CharClass::Multispace);
            match type_exec(v, m2) {
                Some((t, e)) => {
                    let sub = slice_chars(v, i, n);
                    Some((Field { name: string_from_chars(&sub), ty: t }, e))
                },
                None => None,
            }
        } else {
            None
        }
    } else {
        None
    }
}

fn param_exec(v: &Vec<char>, i: usize) -> (r: Option<(Param, usize)>)
    requires
        i <= v@.len(),
    ensures
        r matches Some((p, e)) ==> param_at(v@, i as int) == Some((p@, e as int)),
        r is None ==> param_at(v@, i as int) is None,
{
    let n = scan_exec(v, i, CharClass::Alnum);
    if n > i {
        let sub = slice_chars(v, i, n);
        let name = string_from_chars(&sub);
        let m = scan_exec(v, n, CharClass::Multispace);
        if char_at_exec(v, m, ':') {
            let t0 = scan_exec(v, m + 1, CharClass::Multispace);
            match type_exec(v, t0) {
                Some((t, e)) => Some((Param { name, ty: Some(t) }, e)),
                None => Some((Param { name, ty: None }, m)),
            }
        } else {
            Some((Param { name, ty: None }, m))
        }
    } else {
        None
    }
}

fn sep_exec(v: &Vec<char>, i: usize) -> (r: usize)
    requires
        i <= v@.len(),
    ensures
        r == sep_end(v@, i as int),
        i <= r <= v@.len(),
{
    let m = scan_exec(v, i, CharClass::Multispace);
    let c = if char_at_exec(v, m, ',') {
        m + 1
    } else {
        m
    };
    scan_exec(v, c, CharClass::Multispace)
}

fn fields_exec(v: &Vec<char>, i: usize) -> (r: Step<Vec<Field>>)
    requires
        i <= v@.len(),
    ensures
        r matches Step::Done(fs, e) ==> fields_list(v@, i as int) == Outcome::Done(
            fs@.map_values(|f: Field| f@),
            e as int,
        ) && e <= v@.len(),
        r is Fail ==> fields_list(v@, i as int) is Fail,
        r is Stuck ==> fields_list(v@, i as int) is Stuck,
{
    proof {
        lemma_field_param_progress(v@, i as int);
    }
    match field_exec(v, i) {
        None => {
            let acc: Vec<Field> = Vec::new();
            assert(acc@.map_values(|f: Field| f@) =~= Seq::<FieldModel>::empty());
            Step::Done(acc, i)
        },
        Some((f, e)) => {
            let mut acc: Vec<Field> = Vec::new();
            acc.push(f);
            assert(acc@.map_values(|f: Field| f@) =~= seq![f@]);
            let mut j = e;
            loop
                invariant
                    j <= v@.len(),
                    fields_list(v@, i as int) == fields_rest(
                        v@,
                        j as int,
                        acc@.map_values(|f: Field| f@),
                    ),
                decreases v@.len() - j,
            {
                let k = sep_exec(v, j);
                if k == j {
                    return Step::Stuck;
                }
                proof {
                    lemma_field_param_progress(v@, k as int);
                }
                match field_exec(v, k) {
                    None => {
                        return Step::Done(acc, j);
                    },
                    Some((f, e)) => {
                        let ghost old_acc = acc@;
                        acc.push(f);
                        assert(acc@.map_values(|f: Field| f@) =~= old_acc.map_values(
                            |f: Field| f@,
                        ).push(f@));
                        j = e;
                    },
                }
            }
        },
    }
}

fn params_exec(v: &Vec<char>, i: usize) -> (r: Step<Vec<Param>>)
    requires
        i <= v@.len(),
    ensures
        r matches Step::Done(ps, e) ==> params_list(v@, i as int) == Outcome::Done(
            ps@.map_values(|p: Param| p@),
            e as int,
        ) && e <= v@.len(),
        r is Fail ==> params_list(v@, i as int) is Fail,
        r is Stuck ==> params_list(v@, i as int) is Stuck,
{
    proof {
        lemma_field_param_progress(v@, i as int);
    }
    match param_exec(v, i) {
        None => {
            let acc: Vec<Param> = Vec::new();
            assert(acc@.map_values(|p: Param| p@) =~= Seq::<ParamModel>::empty());
            Step::Done(acc, i)
        },
        Some((p, e)) => {
            let mut acc: Vec<Param> = Vec::new();
            acc.push(p);
            assert(acc@.map_values(|p: Param| p@) =~= seq![p@]);
            let mut j = e;
            loop
                invariant
                    j <= v@.len(),
                    params_list(v@, i as int) == params_rest(
                        v@,
                        j as int,
                        acc@.map_values(|p: Param| p@),
                    ),
                decreases v@.len() - j,
            {
                let k = sep_exec(v, j);
                if k == j {
                    return Step::Stuck;
                }
                proof {
                    lemma_field_param_progress(v@, k as int);
                }
                match param_exec(v, k) {
                    None => {
                        return Step::Done(acc, j);
                    },
                    Some((p, e)) => {
                        let ghost old_acc = acc@;
                        acc.push(p);
                        assert(acc@.map_values(|p: Param| p@) =~= old_acc.map_values(
                            |p: Param| p@,
                        ).push(p@));
                        j = e;
                    },
                }
            }
        },
    }
}

fn schema_exec(v: &Vec<char>, i: usize) -> (r: Step<Schema>)
    requires
        i <= v@.len(),
    ensures
        r matches Step::Done(sc, e) ==> schema_at(v@, i as int) == Outcome::Done(sc@, e as int),
        r is Fail ==> schema_at(v@, i as int) is Fail,
        r is Stuck ==> schema_at(v@, i as int) is Stuck,
{
    let k = match lit_end(v, i, "schema") {
        Some(k) => k,
        None => {
            return Step::Fail;
        },
    };
    let a = scan_exec(v, k, CharClass::Space);
    let n = scan_exec(v, a, CharClass::Alnum);
    let m1 = scan_exec(v, n, CharClass::Multispace);
    if a > k && n > a && char_at_exec(v, m1, '{') {
        let m2 = scan_exec(v, m1 + 1, CharClass::Multispace);
        match fields_exec(v, m2) {
            Step::Done(fs, e) => {
                let m3 = scan_exec(v, e, CharClass::Multispace);
                if char_at_exec(v, m3, '}') {
                    let sub = slice_chars(v, a, n);
                    let sc = Schema { name: string_from_chars(&sub), fields: fs };
                    Step::Done(sc, m3 + 1)
                } else {
                    Step::Fail
                }
            },
            Step::Fail => Step::Fail,
            Step::Stuck => Step::Stuck,
        }
    } else {
        Step::Fail
    }
}

fn return_type_exec(v: &Vec<char>, i: usize) -> (r: (Option<Type>, usize))
    requires
        i <= v@.len(),
    ensures
        return_type_at(v@, i as int) == (opt_type_model(r.0), r.1 as int),
        r.1 <= v@.len(),
{
    proof {
        reveal_strlit("->");
    }
    match lit_end(v, i, "->") {
        Some(k) => {
            let t0 = scan_exec(v, k, CharClass::Multispace);
            proof {
                lemma_type_progress(v@, t0 as int);
            }
            match type_exec(v, t0) {
                Some((t, e)) => (Some(t), e),
                None => (None, i),
            }
        },
        None => (None, i),
    }
}

fn flow_sig_exec(v: &Vec<char>, i: usize) -> (r: Step<Flow>)
    requires
        i <= v@.len(),
    ensures
        r matches Step::Done(f, e) ==> flow_sig_at(v@, i as int) == Outcome::Done(f@, e as int),
        r is Fail ==> flow_sig_at(v@, i as int) is Fail,
        r is Stuck ==> flow_sig_at(v@, i as int) is Stuck,
{
    let k = match lit_end(v, i, "flow") {
        Some(k) => k,
        None => {
            return Step::Fail;
        },
    };
    let a = scan_exec(v, k, CharClass::Space);
    let n = scan_exec(v, a, CharClass::Alnum);
    let m1 = scan_exec(v, n, CharClass::Multispace);
    if a > k && n > a && char_at_exec(v, m1, '(') {
        match params_exec(v, m1 + 1) {
            Step::Done(ps, e) => {
                if char_at_exec(v, e, ')') {
                    let m2 = scan_exec(v, e + 1, CharClass::Multispace);
                    let (ret, r) = return_type_exec(v, m2);
                    let m3 = scan_exec(v, r, CharClass::Multispace);
                    if char_at_exec(v, m3, '{') {
                        let m4 = scan_exec(v, m3 + 1, CharClass::Multispace);
                        if char_at_exec(v, m4, '}') {
                            let sub = slice_chars(v, a, n);
                            let f = Flow {
                                name: string_from_chars(&sub),
                                params: ps,
                                return_ty: ret,
                                implementation: Implementation::Empty,
                            };
                            Step::Done(f, m4 + 1)
                        } else {
                            Step::Fail
                        }
                    } else {
                        Step::Fail
                    }
                } else {
                    Step::Fail
                }
            },
            Step::Fail => Step::Fail,
            Step::Stuck => Step::Stuck,
        }
    } else {
        Step::Fail
    }
}

fn after_item_exec(v: &Vec<char>, e: usize) -> (r: usize)
    requires
        e <= v@.len(),
    ensures
        r == after_item(v@, e as int),
        e <= r <= v@.len(),
{
    let j = scan_exec(v, e, CharClass::Multispace);
    if char_at_exec(v, j, ',') {
        j + 1
    } else {
        e
    }
}

fn types_exec(v: &Vec<char>, i: usize) -> (r: (Vec<Type>, usize))
    requires
        i <= v@.len(),
    ensures
        (r.0@.map_values(|t: Type| t@), r.1 as int) == types_from(v@, i as int, Seq::empty()),
        i <= r.1 <= v@.len(),
{
    let mut acc: Vec<Type> = Vec::new();
    let mut j = i;
    assert(acc@.map_values(|t: Type| t@) =~= Seq::<TypeModel>::empty());
    loop
        invariant
            i <= j <= v@.len(),
            types_from(v@, i as int, Seq::empty()) == types_from(
                v@,
                j as int,
                acc@.map_values(|t: Type| t@),
            ),
        decreases v@.len() - j,
    {
        let m = scan_exec(v, j, CharClass::Multispace);
        proof {
            lemma_type_progress(v@, m as int);
        }
        match type_exec(v, m) {
            None => {
                return (acc, j);
            },
            Some((t, e)) => {
                let ghost old_acc = acc@;
                let ghost tm = t@;
                acc.push(t);
                assert(acc@.map_values(|t: Type| t@) =~= old_acc.map_values(|t: Type| t@).push(tm));
                j = after_item_exec(v, e);
            },
        }
    }
}

fn named_fields_exec(v: &Vec<char>, i: usize) -> (r: (Vec<Field>, usize))
    requires
        i <= v@.len(),
    ensures
        (r.0@.map_values(|f: Field| f@), r.1 as int) == named_fields_from(
            v@,
            i as int,
            Seq::empty(),
        ),
        i <= r.1 <= v@.len(),
{
    let mut acc: Vec<Field> = Vec::new();
    let mut j = i;
    assert(acc@.map_values(|f: Field| f@) =~= Seq::<FieldModel>::empty());
    loop
        invariant
            i <= j <= v@.len(),
            named_fields_from(v@, i as int, Seq::empty()) == named_fields_from(
                v@,
                j as int,
                acc@.map_values(|f: Field| f@),
            ),
        decreases v@.len() - j,
    {
        let m = scan_exec(v, j, CharClass::Multispace);
        proof {
            lemma_field_param_progress(v@, m as int);
        }
        match field_exec(v, m) {
            None => {
                return (acc, j);
            },
            Some((f, e)) => {
                let ghost old_acc = acc@;
                let ghost fm = f@;
                acc.push(f);
                assert(acc@.map_values(|f: Field| f@) =~= old_acc.map_values(|f: Field| f@).push(
                    fm,
                ));
                j = after_item_exec(v, e);
            },
        }
    }
}

fn variant_exec(v: &Vec<char>, i: usize) -> (r: Option<(Variant, usize)>)
    requires
        i <= v@.len(),
    ensures
        r matches Some((x, e)) ==> variant_at(v@, i as int) == Some((x@, e as int)),
        r is None ==> variant_at(v@, i as int) is None,
{
    let n = scan_exec(v, i, CharClass::Alnum);
    if n <= i {
        return None;
    }
    let sub = slice_chars(v, i, n);
    let name = string_from_chars(&sub);
    let k = scan_exec(v, n, CharClass::Multispace);
    if char_at_exec(v, k, '(') {
        let (ts, e) = types_exec(v, k + 1);
        let c = scan_exec(v, e, CharClass::Multispace);
        if char_at_exec(v, c, ')') {
            Some((Variant::Tuple(name, ts), c + 1))
        } else {
            None
        }
    } else if char_at_exec(v, k, '{') {
        let (fs, e) = named_fields_exec(v, k + 1);
        let c = scan_exec(v, e, CharClass::Multispace);
        if char_at_exec(v, c, '}') {
            Some((Variant::Struct(name, fs), c + 1))
        } else {
            None
        }
    } else {
        Some((Variant::Unit(name), n))
    }
}

fn variants_exec(v: &Vec<char>, i: usize) -> (r: (Vec<Variant>, usize))
    requires
        i <= v@.len(),
    ensures
        (r.0@.map_values(|x: Variant| x@), r.1 as int) == variants_from(
            v@,
            i as int,
            Seq::empty(),
        ),
        i <= r.1 <= v@.len(),
{
    let mut acc: Vec<Variant> = Vec::new();
    let mut j = i;
    assert(acc@.map_values(|x: Variant| x@) =~= Seq::<VariantModel>::empty());
    loop
        invariant
            i <= j <= v@.len(),
            variants_from(v@, i as int, Seq::empty()) == variants_from(
                v@,
                j as int,
                acc@.map_values(|x: Variant| x@),
            ),
        decreases v@.len() - j,
    {
        let m = scan_exec(v, j, CharClass::Multispace);
        proof {
            lemma_variant_progress(v@, m as int);
        }
        match variant_exec(v, m) {
            None => {
                return (acc, j);
            },
            Some((x, e)) => {
                let ghost old_acc = acc@;
                let ghost xm = x@;
                acc.push(x);
                assert(acc@.map_values(|x: Variant| x@) =~= old_acc.map_values(|x: Variant| x@).push(
                    xm,
                ));
                j = after_item_exec(v, e);
            },
        }
    }
}

fn enum_exec(v: &Vec<char>, i: usize) -> (r: Option<(EnumDecl, usize)>)
    requires
        i <= v@.len(),
    ensures
        r matches Some((x, e)) ==> enum_at(v@, i as int) == Some((x@, e as int)),
        r is None ==> enum_at(v@, i as int) is None,
{
    let k = match lit_end(v, i, "enum") {
        Some(k) => k,
        None => {
            return None;
        },
    };
    let a = scan_exec(v, k, CharClass::Space);
    let n = scan_exec(v, a, CharClass::Alnum);
    let m1 = scan_exec(v, n, CharClass::Multispace);
    if a > k && n > a && char_at_exec(v, m1, '{') {
        let (vs, e) = variants_exec(v, m1 + 1);
        let c = scan_exec(v, e, CharClass::Multispace);
        if char_at_exec(v, c, '}') {
            let sub = slice_chars(v, a, n);
            Some((EnumDecl { name: string_from_chars(&sub), variants: vs }, c + 1))
        } else {
            None
        }
    } else {
        None
    }
}

fn declaration_exec(v: &Vec<char>, i: usize) -> (r: Step<Declaration>)
    requires
        i <= v@.len(),
    ensures
        r matches Step::Done(d, e) ==> declaration_at(v@, i as int) == Outcome::Done(
            d@,
            e as int,
        ),
        r is Fail ==> declaration_at(v@, i as int) is Fail,
        r is Stuck ==> declaration_at(v@, i as int) is Stuck,
{
    let m = scan_exec(v, i, CharClass::Multispace);
    if let Some((p, e)) = import_exec(v, m) {
        return Step::Done(Declaration::Import(p), e);
    }
    match schema_exec(v, m) {
        Step::Done(sc, e) => Step::Done(Declaration::Schema(sc), e),
        Step::Stuck => Step::Stuck,
        Step::Fail => match flow_sig_exec(v, m) {
            Step::Done(f, e) => Step::Done(Declaration::Flow(f), e),
            Step::Stuck => Step::Stuck,
            Step::Fail => match enum_exec(v, m) {
                Some((en, e)) => Step::Done(Declaration::Enum(en), e),
                None => Step::Fail,
            },
        },
    }
}

/// Parses a blueprint from the front of `input`: imports, schemas, flow
/// signatures and enumerations, separated by whitespace. On success `input` holds what
/// follows the declarations and the whitespace after them.
///
/// A list of fields or parameters in which a separator reads nothing, as
/// before a closing bracket that directly follows a list element, stops the
/// parse with [`ParseError::NoProgress`]; `input` is then left unchanged.
pub fn parse_program(input: &mut &str) -> (r: Result<Program, ParseError>)
    ensures
        bp_parse(old(input)@) matches Outcome::Done(p, e) ==> {
            &&& r matches Ok(q) && q@ == p
            &&& 0 <= e <= old(input)@.len()
            &&& final(input)@ == old(input)@.skip(e)
        },
        bp_parse(old(input)@) is Stuck ==> r == Err::<Program, ParseError>(ParseError::NoProgress)
            && final(input)@ == old(input)@,
        r is Ok <==> bp_parse(old(input)@) is Done,
        r is Err ==> r == Err::<Program, ParseError>(ParseError::NoProgress),
{
    proof {
        lemma_bp_parse_never_fails(old(input)@);
    }
    let v = chars_of(*input);
    let start = scan_exec(&v, 0, CharClass::Multispace);
    let mut declarations: Vec<Declaration> = Vec::new();
    let mut j = start;
    assert(declarations@.map_values(|d: Declaration| d@) =~= Seq::<DeclarationModel>::empty());
    loop
        invariant
            start <= j <= v@.len(),
            v@ == old(input)@,
            *input == *old(input),
            start == scan(v@, 0, CharClass::Multispace),
            declarations_from(v@, start as int) == match declarations_from(v@, j as int) {
                Outcome::Done(ds, e) => Outcome::Done(
                    declarations@.map_values(|d: Declaration| d@) + ds,
                    e,
                ),
                Outcome::Stuck => Outcome::Stuck,
                Outcome::Fail => Outcome::Fail,
            },
        decreases v@.len() - j,
    {
        proof {
            lemma_declaration_progress(v@, j as int);
        }
        match declaration_exec(&v, j) {
            Step::Done(d, e) => {
                let ghost old_decls = declarations@;
                declarations.push(d);
                proof {
                    assert(declarations@.map_values(|d: Declaration| d@) =~= old_decls.map_values(
                        |d: Declaration| d@,
                    ).push(d@));
                    match declarations_from(v@, e as int) {
                        Outcome::Done(ds, end) => {
                            assert(declarations@.map_values(|d: Declaration| d@) + ds
                                =~= old_decls.map_values(|d: Declaration| d@) + (seq![d@]
                                + ds));
                        },
                        _ => {},
                    }
                }
                j = e;
            },
            Step::Stuck => {
                return Err(ParseError::NoProgress);
            },
            Step::Fail => {
                assert(declarations@.map_values(|d: Declaration| d@) + Seq::<
                    DeclarationModel,
                >::empty() =~= declarations@.map_values(|d: Declaration| d@));
                let e = scan_exec(&v, j, CharClass::Multispace);
                let len = v.len();
                *input = (*input).substring_char(e, len);
                return Ok(Program { declarations });
            },
        }
    }
}

} // verus!
