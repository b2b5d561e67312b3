//! Front end for agent scripts: a front matter block between `---` lines,
//! which declares the inputs and outputs, followed by the intent text.
//!
//! The front matter itself is YAML; reading it into a [`FrontMatter`] is
//! left to the caller. This module frames the file and assembles the
//! program from the front matter and the body.

use vstd::prelude::*;
use crate::text::{
    occurs_at, find_from, find_from_exec, lemma_find_from_bounds, chars_of, slice_chars,
    string_from_chars, chars_equal, trim, trim_chars, lines, lines_exec, lowercase, lowercase_chars,
};
use crate::parser::scan::{CharClass, scan, scan_exec, lemma_scan_bounds, lit_end};
use crate::parser::ast::{
    Program, Declaration, Flow, Param, Type, Implementation, TypeModel, ParamModel, FlowModel,
    DeclarationModel, ImplementationModel, ProgramModel, lines_model,
};
use crate::parser::ParseError;

verus! {

/// One declared input or output: its key and the name of its type.
#[derive(Debug)]
pub struct IOField {
    pub key: String,
    pub ty: String,
}

/// The declarations of a front matter block.
#[derive(Debug)]
pub struct FrontMatter {
    pub inputs: Vec<IOField>,
    pub outputs: Vec<IOField>,
}

/// Where the front matter lies: after optional whitespace, `---`; the front
/// matter runs to the next `---`, and the body is what follows that.
pub open spec fn has_frame(s: Seq<char>) -> Option<(Seq<char>, Seq<char>)> {
    let m = scan(s, 0, CharClass::Multispace);
    if occurs_at(s, "---"@, m) {
        let a = m + "---"@.len();
        match find_from(s, "---"@, a) {
            Some(b) => Some((s.subrange(a, b), s.skip(b + "---"@.len()))),
            None => None,
        }
    } else {
        None
    }
}

/// Splits an agent script into its front matter text and its body text.
/// Fails with [`ParseError::Mismatch`] exactly when the script does not start,
/// after whitespace, with `---`, or has no second `---`.
pub fn split_has(input: &str) -> (r: Result<(String, String), ParseError>)
    ensures
        r matches Ok((f, b)) ==> has_frame(input@) == Some((f@, b@)),
        r is Err ==> has_frame(input@) is None && r == Err::<(String, String), ParseError>(
            ParseError::Mismatch,
        ),
{
    let v = chars_of(input);
    let m = scan_exec(&v, 0, CharClass::Multispace);
    let a = match lit_end(&v, m, "---") {
        Some(a) => a,
        None => {
            return Err(ParseError::Mismatch);
        },
    };
    let dashes = chars_of("---");
    match find_from_exec(&v, &dashes, a) {
        Some(b) => {
            proof {
                lemma_find_from_bounds(v@, dashes@, a as int);
            }
            let front = slice_chars(&v, a, b);
            let body = slice_chars(&v, b + dashes.len(), v.len());
            assert(body@ =~= v@.skip(b + dashes@.len()));
            Ok((string_from_chars(&front), string_from_chars(&body)))
        },
        None => Err(ParseError::Mismatch),
    }
}

/// The type a front matter type name denotes: by its lowercase form,
/// `string`/`str`, `bool`/`boolean`, `integer`/`int`/`i32`, `float`/`f32`
/// and `void` name the primitive types; any other name is a custom type,
/// kept as written.
pub open spec fn type_from_name(s: Seq<char>) -> TypeModel {
    type_named(s, lowercase(s))
}

/// The type a front matter type name `s` denotes, given its lowercase form
/// `l` (see [`type_from_name`]).
pub open spec fn type_named(s: Seq<char>, l: Seq<char>) -> TypeModel {
    if l == "string"@ || l == "str"@ {
        TypeModel::Str
    } else if l == "bool"@ || l == "boolean"@ {
        TypeModel::Bool
    } else if l == "integer"@ || l == "int"@ || l == "i32"@ {
        TypeModel::I32
    } else if l == "float"@ || l == "f32"@ {
        TypeModel::F32
    } else if l == "void"@ {
        TypeModel::Void
    } else {
        TypeModel::Custom(s)
    }
}

/// Each documented type name denotes its primitive type whatever its case
/// (through its lowercase form): `bool`/`boolean` a `Bool`,
/// `string`/`str` a `Str`, `integer`/`int`/`i32` an `I32`, `float`/`f32`
/// an `F32` and `void` a `Void`; only a name that is none of these is a
/// custom type, named as written.
pub proof fn lemma_type_names(s: Seq<char>)
    ensures
        (lowercase(s) == "bool"@ || lowercase(s) == "boolean"@) ==> type_from_name(s)
            == TypeModel::Bool,
        (lowercase(s) == "string"@ || lowercase(s) == "str"@) ==> type_from_name(s)
            == TypeModel::Str,
        (lowercase(s) == "integer"@ || lowercase(s) == "int"@ || lowercase(s) == "i32"@)
            ==> type_from_name(s) == TypeModel::I32,
        (lowercase(s) == "float"@ || lowercase(s) == "f32"@) ==> type_from_name(s)
            == TypeModel::F32,
        lowercase(s) == "void"@ ==> type_from_name(s) == TypeModel::Void,
        type_from_name(s) is Custom <==> !(lowercase(s) == "bool"@ || lowercase(s) == "boolean"@
            || lowercase(s) == "string"@ || lowercase(s) == "str"@ || lowercase(s) == "integer"@
            || lowercase(s) == "int"@ || lowercase(s) == "i32"@ || lowercase(s) == "float"@
            || lowercase(s) == "f32"@ || lowercase(s) == "void"@),
        type_from_name(s) is Custom ==> type_from_name(s) == TypeModel::Custom(s),
{
    reveal_strlit("bool");
    reveal_strlit("boolean");
    reveal_strlit("string");
    reveal_strlit("str");
    reveal_strlit("integer");
    reveal_strlit("int");
    reveal_strlit("i32");
    reveal_strlit("float");
    reveal_strlit("f32");
    reveal_strlit("void");
    assert("bool"@.len() == 4);
    assert("boolean"@.len() == 7);
    assert("string"@.len() == 6);
    assert("str"@.len() == 3);
    assert("integer"@.len() == 7);
    assert("int"@.len() == 3);
    assert("i32"@.len() == 3);
    assert("float"@.len() == 5);
    assert("f32"@.len() == 3);
    assert("void"@.len() == 4);
    assert("bool"@ != "boolean"@);
    assert("bool"@ != "string"@);
    assert("bool"@ != "str"@);
    assert("bool"@ != "integer"@);
    assert("bool"@ != "int"@);
    assert("bool"@ != "i32"@);
    assert("bool"@ != "float"@);
    assert("bool"@ != "f32"@);
    assert("bool"@[0] != "void"@[0]);
    assert("bool"@ != "void"@);
    assert("boolean"@ != "string"@);
    assert("boolean"@ != "str"@);
    assert("boolean"@[0] != "integer"@[0]);
    assert("boolean"@ != "integer"@);
    assert("boolean"@ != "int"@);
    assert("boolean"@ != "i32"@);
    assert("boolean"@ != "float"@);
    assert("boolean"@ != "f32"@);
    assert("boolean"@ != "void"@);
    assert("string"@ != "str"@);
    assert("string"@ != "integer"@);
    assert("string"@ != "int"@);
    assert("string"@ != "i32"@);
    assert("string"@ != "float"@);
    assert("string"@ != "f32"@);
    assert("string"@ != "void"@);
    assert("str"@ != "integer"@);
    assert("str"@[0] != "int"@[0]);
    assert("str"@ != "int"@);
    assert("str"@[0] != "i32"@[0]);
    assert("str"@ != "i32"@);
    assert("str"@ != "float"@);
    assert("str"@[0] != "f32"@[0]);
    assert("str"@ != "f32"@);
    assert("str"@ != "void"@);
    assert("integer"@ != "int"@);
    assert("integer"@ != "i32"@);
    assert("integer"@ != "float"@);
    assert("integer"@ != "f32"@);
    assert("integer"@ != "void"@);
    assert("int"@[1] != "i32"@[1]);
    assert("int"@ != "i32"@);
    assert("int"@ != "float"@);
    assert("int"@[0] != "f32"@[0]);
    assert("int"@ != "f32"@);
    assert("int"@ != "void"@);
    assert("i32"@ != "float"@);
    assert("i32"@[0] != "f32"@[0]);
    assert("i32"@ != "f32"@);
    assert("i32"@ != "void"@);
    assert("float"@ != "f32"@);
    assert("float"@ != "void"@);
    assert("f32"@ != "void"@);
}

/// Reads a front matter type name.
pub fn parse_type_from_str(s: &str) -> (t: Type)
    ensures
        t@ == type_from_name(s@),
{
    let v = chars_of(s);
    let l = lowercase_chars(&v);
    type_for_name(s, &l)
}

/// The type a front matter type name denotes, given the name and its
/// lowercase form.
pub fn type_for_name(s: &str, l: &Vec<char>) -> (t: Type)
    ensures
        t@ == type_named(s@, l@),
{
    let v = chars_of(s);
    if chars_equal(l, "string") || chars_equal(l, "str") {
        Type::Str
    } else if chars_equal(l, "bool") || chars_equal(l, "boolean") {
        Type::Bool
    } else if chars_equal(l, "integer") || chars_equal(l, "int") || chars_equal(l, "i32") {
        Type::I32
    } else if chars_equal(l, "float") || chars_equal(l, "f32") {
        Type::F32
    } else if chars_equal(l, "void") {
        Type::Void
    } else {
        Type::Custom(string_from_chars(&v))
    }
}

/// The trimmed lines of a text that are not empty after trimming.
pub open spec fn body_lines(ls: Seq<Seq<char>>) -> Seq<Seq<char>>
    decreases ls.len(),
{
    if ls.len() == 0 {
        Seq::empty()
    } else if trim(ls.last()).len() == 0 {
        body_lines(ls.drop_last())
    } else {
        body_lines(ls.drop_last()).push(trim(ls.last()))
    }
}

/// The return type that the outputs declare: none for no output, the
/// output's type for one, and the custom type `ComplexOutput` for more.
pub open spec fn outputs_type(outputs: Seq<IOField>) -> Option<TypeModel> {
    if outputs.len() == 0 {
        None
    } else if outputs.len() == 1 {
        Some(type_from_name(outputs[0].ty@))
    } else {
        Some(TypeModel::Custom("ComplexOutput"@))
    }
}

/// The program an agent script describes: one flow, `implicit_flow`, with a
/// parameter per input (its key, and the type its type name denotes), the
/// return type of the outputs, and the non-blank trimmed body lines as its
/// implementation.
pub open spec fn has_program(inputs: Seq<IOField>, outputs: Seq<IOField>, body: Seq<char>) -> ProgramModel {
    ProgramModel {
        declarations: seq![
            DeclarationModel::Flow(
                FlowModel {
                    name: "implicit_flow"@,
                    params: inputs.map_values(
                        |f: IOField| ParamModel { name: f.key@, ty: Some(type_from_name(f.ty@)) },
                    ),
                    return_ty: outputs_type(outputs),
                    implementation: ImplementationModel::Inline(body_lines(lines(body))),
                },
            ),
        ],
    }
}

/// Assembles the program of an agent script from its front matter and body.
pub fn build_has_program(front: &FrontMatter, body: &str) -> (p: Program)
    ensures
        p@ == has_program(front.inputs@, front.outputs@, body@),
{
    let v = chars_of(body);
    let ls = lines_exec(&v);
    let ghost lm = ls@.map_values(|l: Vec<char>| l@);
    let mut out: Vec<String> = Vec::new();
    let mut i: usize = 0;
    assert(lm.take(0) =~= Seq::<Seq<char>>::empty());
    assert(lines_model(out@) =~= Seq::<Seq<char>>::empty());
    while i < ls.len()
        invariant
            i <= ls@.len(),
            lm == ls@.map_values(|l: Vec<char>| l@),
            lines_model(out@) == body_lines(lm.take(i as int)),
        decreases ls@.len() - i,
    {
        let t = trim_chars(&ls[i]);
        assert(lm.take(i + 1).drop_last() =~= lm.take(i as int));
        if t.len() > 0 {
            let ghost old_out = out@;
            out.push(string_from_chars(&t));
            assert(lines_model(out@) =~= lines_model(old_out).push(t@));
        }
        i = i + 1;
    }
    assert(lm.take(ls@.len() as int) =~= lm);
    let mut params: Vec<Param> = Vec::new();
    let mut j: usize = 0;
    while j < front.inputs.len()
        invariant
            j <= front.inputs@.len(),
            params@.map_values(|p: Param| p@) =~= front.inputs@.take(j as int).map_values(
                |f: IOField| ParamModel { name: f.key@, ty: Some(type_from_name(f.ty@)) },
            ),
        decreases front.inputs@.len() - j,
    {
        let f = &front.inputs[j];
        let p = Param { name: f.key.clone(), ty: Some(parse_type_from_str(f.ty.as_str())) };
        let ghost old_params = params@;
        params.push(p);
        assert(front.inputs@.take(j + 1) =~= front.inputs@.take(j as int).push(*f));
        assert(params@.map_values(|p: Param| p@) =~= old_params.map_values(|p: Param| p@).push(
            p@,
        ));
        j = j + 1;
    }
    assert(front.inputs@.take(front.inputs@.len() as int) =~= front.inputs@);
    let return_ty = if front.outputs.len() == 0 {
        None
    } else if front.outputs.len() == 1 {
        Some(parse_type_from_str(front.outputs[0].ty.as_str()))
    } else {
        Some(Type::Custom(String::from_str("ComplexOutput")))
    };
    let flow = Flow {
        name: String::from_str("implicit_flow"),
        params,
        return_ty,
        implementation: Implementation::Inline(out),
    };
    let mut declarations: Vec<Declaration> = Vec::new();
    declarations.push(Declaration::Flow(flow));
    let p = Program { declarations };
    assert(p@.declarations =~= seq![DeclarationModel::Flow(flow@)]);
    p
}

} // verus!
