//! The context of declared schemas and flows, and the prompts built from it.

use vstd::prelude::*;
use crate::text::{
    trim, trim_str, chars_of, string_from_chars, join, join_strings, decimal, decimal_string,
    lemma_skip_ws_bounds, lemma_back_ws_bounds, skip_ws, back_ws, is_ws, utf8_len,
    slice_chars, str_equal, truncate_bytes, truncate_bytes_exec, char_boundary, contains,
    occurs_at, lemma_find_from_bounds, lemma_utf8_len_concat, lemma_prefix_reaching_boundary,
    starts_with, parses_as_i32, parses_as_f32, digits_end, digits_value,
};
use crate::parser::ast::{
    Program, Declaration, Flow, Schema, Field, Param, Type, Implementation, TypeModel, ParamModel,
    FieldModel, FlowModel, SchemaModel, DeclarationModel, ImplementationModel, lines_model,
    opt_type_model,
};

verus! {

/// The declared schemas and flows, each under its normalized name, in the
/// order their names were first registered.
pub struct Context {
    pub schemas: Vec<(String, Schema)>,
    pub flows: Vec<(String, Flow)>,
    pub metadata: Vec<(String, String)>,
}

/// Model of a [`Context`]: its entries by name, in order.
pub struct ContextModel {
    pub schemas: Seq<(Seq<char>, SchemaModel)>,
    pub flows: Seq<(Seq<char>, FlowModel)>,
    pub metadata: Seq<(Seq<char>, Seq<char>)>,
}

impl View for Context {
    type V = ContextModel;

    open spec fn view(&self) -> ContextModel {
        ContextModel {
            schemas: self.schemas@.map_values(|e: (String, Schema)| (e.0@, e.1@)),
            flows: self.flows@.map_values(|e: (String, Flow)| (e.0@, e.1@)),
            metadata: self.metadata@.map_values(|e: (String, String)| (e.0@, e.1@)),
        }
    }
}

/// The first index at or after `i` of an entry named `k`.
pub open spec fn key_index_from<V>(es: Seq<(Seq<char>, V)>, k: Seq<char>, i: int) -> Option<int>
    decreases es.len() - i,
{
    if i < 0 || i >= es.len() {
        None
    } else if es[i].0 == k {
        Some(i)
    } else {
        key_index_from(es, k, i + 1)
    }
}

/// The index of the entry named `k`.
pub open spec fn key_index<V>(es: Seq<(Seq<char>, V)>, k: Seq<char>) -> Option<int> {
    key_index_from(es, k, 0)
}

/// The value of the entry named `k`.
pub open spec fn lookup<V>(es: Seq<(Seq<char>, V)>, k: Seq<char>) -> Option<V> {
    match key_index(es, k) {
        Some(i) => Some(es[i].1),
        None => None,
    }
}

/// `HashMap::insert` on entries: the value of an entry named `k` is
/// replaced in place; without one, the entry is added at the end.
pub open spec fn upsert<V>(es: Seq<(Seq<char>, V)>, k: Seq<char>, v: V) -> Seq<(Seq<char>, V)> {
    match key_index(es, k) {
        Some(i) => es.update(i, (k, v)),
        None => es.push((k, v)),
    }
}

/// Whether no two entries share a name.
pub open spec fn keys_unique<V>(es: Seq<(Seq<char>, V)>) -> bool {
    forall|i: int, j: int| 0 <= i < j < es.len() ==> es[i].0 != es[j].0
}

pub proof fn lemma_key_index_from<V>(es: Seq<(Seq<char>, V)>, k: Seq<char>, i: int)
    requires
        0 <= i,
    ensures
        key_index_from(es, k, i) matches Some(j) ==> i <= j < es.len() && es[j].0 == k,
        key_index_from(es, k, i) matches Some(j) ==> forall|m: int| i <= m < j ==> es[m].0 != k,
        key_index_from(es, k, i) is None ==> forall|m: int| i <= m < es.len() ==> es[m].0 != k,
    decreases es.len() - i,
{
    if i < es.len() && es[i].0 != k {
        lemma_key_index_from(es, k, i + 1);
    }
}

/// `str::trim` followed by replacing each space with `_`.
pub open spec fn normalized(id: Seq<char>) -> Seq<char> {
    trim(id).map_values(|c: char| if c == ' ' { '_' } else { c })
}

/// What registering one declaration does to the schemas and flows: a schema
/// is stored under its normalized name; a flow named `implicit_flow` takes
/// the default name when one is given, and is stored, renamed to its
/// normalized name, under that name; an import or an enumeration changes
/// nothing.
pub open spec fn register_one(
    schemas: Seq<(Seq<char>, SchemaModel)>,
    flows: Seq<(Seq<char>, FlowModel)>,
    d: DeclarationModel,
    default_name: Option<Seq<char>>,
) -> (Seq<(Seq<char>, SchemaModel)>, Seq<(Seq<char>, FlowModel)>) {
    match d {
        DeclarationModel::Schema(s) => (upsert(schemas, normalized(s.name), s), flows),
        DeclarationModel::Flow(f) => {
            let base = if f.name == "implicit_flow"@ && default_name is Some {
                default_name->0
            } else {
                f.name
            };
            let name = normalized(base);
            (schemas, upsert(flows, name, FlowModel { name: name, ..f }))
        },
        DeclarationModel::Import(_) | DeclarationModel::Enum(_) => (schemas, flows),
    }
}

/// Registering declarations one after the other.
pub open spec fn register_all(
    schemas: Seq<(Seq<char>, SchemaModel)>,
    flows: Seq<(Seq<char>, FlowModel)>,
    ds: Seq<DeclarationModel>,
    default_name: Option<Seq<char>>,
) -> (Seq<(Seq<char>, SchemaModel)>, Seq<(Seq<char>, FlowModel)>)
    decreases ds.len(),
{
    if ds.len() == 0 {
        (schemas, flows)
    } else {
        let (s, f) = register_all(schemas, flows, ds.drop_last(), default_name);
        register_one(s, f, ds.last(), default_name)
    }
}

/// What every context built by registering satisfies: names are distinct
/// and normalized, every schema is stored under the normalized form of its
/// name, and every flow under its own name.
pub open spec fn context_wf(c: ContextModel) -> bool {
    &&& keys_unique(c.schemas)
    &&& keys_unique(c.flows)
    &&& names_normalized(c.schemas)
    &&& schemas_under_own_name(c.schemas)
    &&& names_normalized(c.flows)
    &&& flows_under_own_name(c.flows)
}

impl Context {
    /// An empty context.
    pub fn new() -> (c: Self)
        ensures
            c@.schemas.len() == 0,
            c@.flows.len() == 0,
            c@.metadata.len() == 0,
            context_wf(c@),
    {
        Context { schemas: Vec::new(), flows: Vec::new(), metadata: Vec::new() }
    }

    /// Trims an identifier and replaces each space in it with `_`.
    pub fn normalize_identifier(id: &str) -> (r: String)
        ensures
            r@ == normalized(id@),
    {
        let v = chars_of(id);
        let t = crate::text::trim_chars(&v);
        let mut out: Vec<char> = Vec::new();
        let mut i: usize = 0;
        while i < t.len()
            invariant
                i <= t@.len(),
                out@ == t@.take(i as int).map_values(|c: char| if c == ' ' { '_' } else { c }),
            decreases t@.len() - i,
        {
            let c = t[i];
            out.push(if c == ' ' {
                '_'
            } else {
                c
            });
            i = i + 1;
            assert(out@ =~= t@.take(i as int).map_values(
                |c: char| if c == ' ' { '_' } else { c },
            ));
        }
        assert(t@.take(t@.len() as int) =~= t@);
        string_from_chars(&out)
    }

    /// The index of the flow named `name`.
    fn flow_index(&self, name: &str) -> (r: Option<usize>)
        ensures
            r matches Some(i) ==> key_index(self@.flows, name@) == Some(i as int),
            r matches Some(i) ==> i < self.flows@.len(),
            r is None ==> key_index(self@.flows, name@) is None,
    {
        proof {
            lemma_key_index_from(self@.flows, name@, 0);
        }
        let mut i: usize = 0;
        while i < self.flows.len()
            invariant
                i <= self.flows@.len(),
                key_index(self@.flows, name@) == key_index_from(self@.flows, name@, i as int),
            decreases self.flows@.len() - i,
        {
            if str_equal(self.flows[i].0.as_str(), name) {
                return Some(i);
            }
            i = i + 1;
        }
        None
    }

    /// The index of the schema named `name`.
    fn schema_index(&self, name: &str) -> (r: Option<usize>)
        ensures
            r matches Some(i) ==> key_index(self@.schemas, name@) == Some(i as int),
            r matches Some(i) ==> i < self.schemas@.len(),
            r is None ==> key_index(self@.schemas, name@) is None,
    {
        proof {
            lemma_key_index_from(self@.schemas, name@, 0);
        }
        let mut i: usize = 0;
        while i < self.schemas.len()
            invariant
                i <= self.schemas@.len(),
                key_index(self@.schemas, name@) == key_index_from(self@.schemas, name@, i as int),
            decreases self.schemas@.len() - i,
        {
            if str_equal(self.schemas[i].0.as_str(), name) {
                return Some(i);
            }
            i = i + 1;
        }
        None
    }

    /// The flow registered under `name`.
    pub fn get_flow(&self, name: &str) -> (r: Option<&Flow>)
        ensures
            r matches Some(f) ==> lookup(self@.flows, name@) == Some(f@),
            r is None ==> lookup(self@.flows, name@) is None,
    {
        match self.flow_index(name) {
            Some(i) => Some(&self.flows[i].1),
            None => None,
        }
    }

    fn insert_schema(&mut self, name: String, s: Schema)
        ensures
            final(self)@.schemas == upsert(old(self)@.schemas, name@, s@),
            final(self)@.flows == old(self)@.flows,
            final(self)@.metadata == old(self)@.metadata,
    {
        match self.schema_index(name.as_str()) {
            Some(i) => {
                let ghost k = name@;
                self.schemas.set(i, (name, s));
                assert(self@.schemas =~= upsert(old(self)@.schemas, k, s@));
            },
            None => {
                let ghost k = name@;
                self.schemas.push((name, s));
                assert(self@.schemas =~= upsert(old(self)@.schemas, k, s@));
            },
        }
    }

    fn insert_flow(&mut self, name: String, f: Flow)
        ensures
            final(self)@.flows == upsert(old(self)@.flows, name@, f@),
            final(self)@.schemas == old(self)@.schemas,
            final(self)@.metadata == old(self)@.metadata,
    {
        match self.flow_index(name.as_str()) {
            Some(i) => {
                let ghost k = name@;
                self.flows.set(i, (name, f));
                assert(self@.flows =~= upsert(old(self)@.flows, k, f@));
            },
            None => {
                let ghost k = name@;
                self.flows.push((name, f));
                assert(self@.flows =~= upsert(old(self)@.flows, k, f@));
            },
        }
    }

    /// Registers the schemas and flows a program declares, in order; a later
    /// declaration under the same normalized name replaces an earlier one.
    /// A flow named `implicit_flow` is registered under `default_name` when
    /// one is given.
    pub fn register_program(&mut self, program: &Program, default_name: Option<&str>)
        ensures
            (final(self)@.schemas, final(self)@.flows) == register_all(
                old(self)@.schemas,
                old(self)@.flows,
                program@.declarations,
                match default_name {
                    Some(n) => Some(n@),
                    None => None,
                },
            ),
            final(self)@.metadata == old(self)@.metadata,
            context_wf(old(self)@) ==> context_wf(final(self)@),
    {
        proof {
            if context_wf(old(self)@) {
                let dn = match default_name {
                    Some(n) => Some(n@),
                    None => None,
                };
                lemma_register_keeps_keys_unique(
                    old(self)@.schemas,
                    old(self)@.flows,
                    program@.declarations,
                    dn,
                );
                lemma_register_names(old(self)@.schemas, old(self)@.flows, program@.declarations, dn);
            }
        }
        let ghost dn = match default_name {
            Some(n) => Some(n@),
            None => None,
        };
        let ghost ds = program@.declarations;
        let mut i: usize = 0;
        assert(ds.take(0) =~= Seq::<DeclarationModel>::empty());
        while i < program.declarations.len()
            invariant
                i <= program.declarations@.len(),
                ds == program@.declarations,
                dn == match default_name {
                    Some(n) => Some(n@),
                    None => None::<Seq<char>>,
                },
                (self@.schemas, self@.flows) == register_all(
                    old(self)@.schemas,
                    old(self)@.flows,
                    ds.take(i as int),
                    dn,
                ),
                self@.metadata == old(self)@.metadata,
            decreases program.declarations@.len() - i,
        {
            assert(ds.take(i + 1).drop_last() =~= ds.take(i as int));
            match &program.declarations[i] {
                Declaration::Schema(s) => {
                    let name = Self::normalize_identifier(s.name.as_str());
                    self.insert_schema(name, s.duplicate());
                },
                Declaration::Flow(f) => {
                    let mut flow = f.duplicate();
                    let base: String = match default_name {
                        Some(n) => if str_equal(flow.name.as_str(), "implicit_flow") {
                            String::from_str(n)
                        } else {
                            flow.name.clone()
                        },
                        None => flow.name.clone(),
                    };
                    flow.name = Self::normalize_identifier(base.as_str());
                    let key = flow.name.clone();
                    self.insert_flow(key, flow);
                },
                Declaration::Import(_) | Declaration::Enum(_) => {},
            }
            i = i + 1;
        }
        assert(ds.take(program.declarations@.len() as int) =~= ds);
    }
}

/// How a type is written in prompts and generated code.
pub open spec fn format_type(t: TypeModel) -> Seq<char>
    decreases t,
{
    match t {
        TypeModel::I32 => "i32"@,
        TypeModel::F32 => "f32"@,
        TypeModel::Bool => "bool"@,
        TypeModel::Str => "String"@,
        TypeModel::Void => "()"@,
        TypeModel::Custom(s) => s,
        TypeModel::Stream(b) => "impl Stream<Item="@ + format_type(*b) + ">"@,
        TypeModel::List(b) => "Vec<"@ + format_type(*b) + ">"@,
        TypeModel::Optional(b) => "Option<"@ + format_type(*b) + ">"@,
    }
}

/// Types are written as Rust writes them: the primitives as `i32`, `f32`,
/// `bool`, `String` and `()`; a list, an option or a stream around the
/// written form of its element type; a custom type by its name.
pub proof fn lemma_format_type_wraps(t: TypeModel, name: Seq<char>)
    ensures
        format_type(TypeModel::I32) == "i32"@ && format_type(TypeModel::F32) == "f32"@
            && format_type(TypeModel::Bool) == "bool"@ && format_type(TypeModel::Str) == "String"@
            && format_type(TypeModel::Void) == "()"@,
        format_type(TypeModel::List(Box::new(t))) == "Vec<"@ + format_type(t) + ">"@,
        format_type(TypeModel::Optional(Box::new(t))) == "Option<"@ + format_type(t) + ">"@,
        format_type(TypeModel::Stream(Box::new(t))) == "impl Stream<Item="@ + format_type(t) + ">"@,
        format_type(TypeModel::Custom(name)) == name,
{
}

/// A written type, `()` when there is none.
pub open spec fn type_or_unit(t: Option<TypeModel>) -> Seq<char> {
    match t {
        Some(t) => format_type(t),
        None => "()"@,
    }
}

/// `name: type` for a parameter.
pub open spec fn param_item(p: ParamModel) -> Seq<char> {
    p.name + ": "@ + type_or_unit(p.ty)
}

/// The parameter list of a flow's signature.
pub open spec fn params_signature(f: FlowModel) -> Seq<char> {
    join(f.params.map_values(|p: ParamModel| param_item(p)), ", "@)
}

/// The written return type of a flow.
pub open spec fn return_text(f: FlowModel) -> Seq<char> {
    type_or_unit(f.return_ty)
}

/// The expression used for a parameter whose command-line argument is
/// missing or unreadable.
pub open spec fn default_value(t: TypeModel) -> Seq<char> {
    match t {
        TypeModel::I32 => "0"@,
        TypeModel::F32 => "0.0"@,
        TypeModel::Bool => "false"@,
        TypeModel::Str => "String::from(\"test\")"@,
        TypeModel::Void => "()"@,
        TypeModel::List(b) => "Vec::<"@ + format_type(*b) + ">::new()"@,
        TypeModel::Optional(_) => "None"@,
        _ => "Default::default()"@,
    }
}

/// The fallback for a parameter is a value of the parameter's written type
/// ([`format_type`]): a `String` is built with `String::from`, not left a
/// string slice; an `i32` is an integer literal and an `f32` a literal with
/// a decimal point that parse as such; a `bool` is a boolean literal; the
/// unit type's value is written as the type itself; a list is an empty
/// vector of the element's written type; an option is `None`.
pub proof fn lemma_default_value_typed(t: TypeModel)
    ensures
        starts_with(default_value(TypeModel::Str), "String::from(\""@)
            && default_value(TypeModel::Str).last() == ')',
        parses_as_i32(default_value(TypeModel::I32)),
        parses_as_f32(default_value(TypeModel::F32)) && contains(
            default_value(TypeModel::F32),
            "."@,
        ),
        default_value(TypeModel::Bool) == "true"@ || default_value(TypeModel::Bool) == "false"@,
        default_value(TypeModel::Void) == format_type(TypeModel::Void),
        format_type(TypeModel::List(Box::new(t))) == "Vec<"@ + format_type(t) + ">"@
            && default_value(TypeModel::List(Box::new(t))) == "Vec::<"@ + format_type(t)
            + ">::new()"@,
        default_value(TypeModel::Optional(Box::new(t))) == "None"@,
{
    reveal_strlit("String::from(\"test\")");
    reveal_strlit("String::from(\"");
    reveal_strlit("0");
    reveal_strlit("0.0");
    reveal_strlit(".");
    reveal_strlit("()");
    let z = "0"@;
    assert(z.len() == 1 && z[0] == '0');
    assert(z.drop_last() =~= Seq::<char>::empty());
    assert(digits_value(Seq::<char>::empty()) == 0);
    assert(z.last() == '0');
    assert(digits_value(z) == digits_value(z.drop_last()) * 10 + ((z.last() as nat) - ('0' as nat)) as nat);
    let s = default_value(TypeModel::Str);
    assert(s.take(14) =~= "String::from(\""@);
    let f = "0.0"@;
    assert(f.len() == 3 && f[0] == '0' && f[1] == '.' && f[2] == '0');
    assert(digits_end(f, 3) == 3);
    assert(digits_end(f, 2) == 3);
    assert(digits_end(f, 1) == 1);
    assert(digits_end(f, 0) == 1);
    assert(f.subrange(1, 2) =~= "."@);
    lemma_find_from_bounds(f, "."@, 0);
    assert(f.subrange(0, 1)[0] == '0');
    assert("."@[0] == '.');
    assert(f.subrange(0, 1) != "."@);
    assert(occurs_at(f, "."@, 1));
}

/// The line of `main` that reads parameter `p` from argument `i + 1`.
pub open spec fn arg_line(p: ParamModel, i: nat) -> Seq<char> {
    let ty = match p.ty {
        Some(t) => t,
        None => TypeModel::Void,
    };
    "    let "@ + p.name + " = args.get("@ + decimal(i) + " + 1).and_then(|s| s.parse::<"@
        + format_type(ty) + ">().ok()).unwrap_or("@ + default_value(ty) + ");\n"@
}

/// The argument-reading lines for a parameter list.
pub open spec fn arg_lines(ps: Seq<ParamModel>) -> Seq<char>
    decreases ps.len(),
{
    if ps.len() == 0 {
        Seq::empty()
    } else {
        arg_lines(ps.drop_last()) + arg_line(ps.last(), (ps.len() - 1) as nat)
    }
}

/// The call of the flow in `main`, printing the result when there is one.
pub open spec fn main_call_line(f: FlowModel) -> Seq<char> {
    let args = join(f.params.map_values(|p: ParamModel| p.name), ", "@);
    if return_text(f) == "()"@ {
        "    "@ + f.name + "("@ + args + ");\n"@
    } else {
        "    let result = "@ + f.name + "("@ + args + ");\n"@ + "    println!(\"{:?}\", result);\n"@
    }
}

/// A `main` that reads each parameter from the command line and calls the
/// flow.
pub open spec fn main_text(f: FlowModel) -> Seq<char> {
    "fn main() {\n"@ + "    let args: Vec<String> = std::env::args().collect();\n"@ + arg_lines(
        f.params,
    ) + main_call_line(f) + "}"@
}

/// `- line` for each line.
pub open spec fn bullets(ls: Seq<Seq<char>>) -> Seq<char>
    decreases ls.len(),
{
    if ls.len() == 0 {
        Seq::empty()
    } else {
        bullets(ls.drop_last()) + "- "@ + ls.last() + "\n"@
    }
}

/// The intent lines of a flow as a bullet list (nothing unless inline).
pub open spec fn intent_bullets(f: FlowModel) -> Seq<char> {
    match f.implementation {
        ImplementationModel::Inline(ls) => bullets(ls),
        _ => Seq::empty(),
    }
}

/// `name: type` for a field.
pub open spec fn field_item(fd: FieldModel) -> Seq<char> {
    fd.name + ": "@ + format_type(fd.ty)
}

/// A schema on one line.
pub open spec fn schema_inline(s: SchemaModel) -> Seq<char> {
    "struct "@ + s.name + " { "@ + join(s.fields.map_values(|fd: FieldModel| field_item(fd)), ", "@)
        + " }\n"@
}

/// The schemas on one line each.
pub open spec fn schemas_inline(es: Seq<(Seq<char>, SchemaModel)>) -> Seq<char>
    decreases es.len(),
{
    if es.len() == 0 {
        Seq::empty()
    } else {
        schemas_inline(es.drop_last()) + schema_inline(es.last().1)
    }
}

/// The prompt asking for the body of flow `f` only.
pub open spec fn body_only_prompt(c: ContextModel, f: FlowModel) -> Seq<char> {
    let intro = "You are a Rust code generator. Generate ONLY the function body (the code inside the braces). Do NOT include the function signature, imports, or main function.\n\n"@
        + "### Example\n"@ + "Function: `greet(name: String) -> ()`\n"@
        + "Intent: Print \"Hello \" followed by name\n"@
        + "Body:\nprintln!(\"Hello {}\", name);\n\n"@;
    let structs = if c.schemas.len() > 0 {
        intro + "### Available Structs\n"@ + schemas_inline(c.schemas) + "\n"@
    } else {
        intro
    };
    structs + "### Your Task\nFunction: `"@ + f.name + "("@ + params_signature(f) + ") -> "@
        + return_text(f) + "`\n"@ + "Intent:\n"@ + intent_bullets(f)
        + "\nGenerate ONLY the body code (no `fn`, no `main`, no `use`). Output raw Rust statements only.\n"@
}

/// The program around a generated body: the flow's signature, the
/// placeholder `{BODY}` and a `main`.
pub open spec fn body_wrapper(f: FlowModel) -> Seq<char> {
    let head = if return_text(f) == "()"@ {
        "fn "@ + f.name + "("@ + params_signature(f) + ") {\n"@
    } else {
        "fn "@ + f.name + "("@ + params_signature(f) + ") -> "@ + return_text(f) + " {\n"@
    };
    head + "{BODY}\n"@ + "}\n\n"@ + main_text(f) + "\n"@
}

/// The worked example of the full-program prompt.
pub open spec fn few_shot_text(is_standalone: bool) -> Seq<char> {
    if is_standalone {
        "### Example\n\n"@ + "Specification:\n"@ + "- Function: `greet`\n"@
            + "- Parameters: name: String\n"@ + "- Return: ()\n"@
            + "- Intent: Print \"Hello \" followed by name\n\n"@ + "Generated Code:\n"@
            + "```rust\n"@ + "fn greet(name: String) {\n"@
            + "    println!(\"Hello {}\", name);\n"@ + "}\n\n"@ + "fn main() {\n"@
            + "    let name = String::from(\"world\");\n"@ + "    greet(name);\n"@ + "}\n"@
            + "```\n\n"@ + "Now generate code for the following specification:\n\n"@
    } else {
        "### Example\n\n"@ + "Specification:\n"@ + "- Function: `add`\n"@
            + "- Parameters: a: i32, b: i32\n"@ + "- Return: i32\n"@
            + "- Intent: Return sum of a and b\n\n"@ + "Generated Code:\n"@ + "```rust\n"@
            + "fn add(a: i32, b: i32) -> i32 {\n"@ + "    a + b\n"@ + "}\n"@ + "```\n\n"@
            + "Now generate code for the following specification:\n\n"@
    }
}

/// A schema as a struct with one field per line.
pub open spec fn schema_block(s: SchemaModel) -> Seq<char> {
    "struct "@ + s.name + " {\n"@ + field_lines(s.fields) + "}\n"@
}

/// `    name: type,` for each field.
pub open spec fn field_lines(fs: Seq<FieldModel>) -> Seq<char>
    decreases fs.len(),
{
    if fs.len() == 0 {
        Seq::empty()
    } else {
        field_lines(fs.drop_last()) + "    "@ + fs.last().name + ": "@ + format_type(fs.last().ty)
            + ",\n"@
    }
}

/// The schemas as structs.
pub open spec fn schema_blocks(es: Seq<(Seq<char>, SchemaModel)>) -> Seq<char>
    decreases es.len(),
{
    if es.len() == 0 {
        Seq::empty()
    } else {
        schema_blocks(es.drop_last()) + schema_block(es.last().1)
    }
}

/// `- name: type` for each parameter.
pub open spec fn param_bullets(ps: Seq<ParamModel>) -> Seq<char>
    decreases ps.len(),
{
    if ps.len() == 0 {
        Seq::empty()
    } else {
        param_bullets(ps.drop_last()) + "- "@ + param_item(ps.last()) + "\n"@
    }
}

/// The schemas section of the full-program prompt.
pub open spec fn schemas_section(c: ContextModel) -> Seq<char> {
    if c.schemas.len() == 0 {
        "### Schemas\n"@ + "None\n"@ + schema_blocks(c.schemas)
    } else {
        "### Schemas\n"@ + schema_blocks(c.schemas)
    }
}

/// The description of the flow in the full-program prompt.
pub open spec fn flow_section(f: FlowModel) -> Seq<char> {
    let head = "\n### Logic Specification (Flow)\n"@ + "Function Name: `"@ + f.name + "`\n"@
        + "Parameters:\n"@;
    let params = if f.params.len() == 0 {
        head + "- None\n"@
    } else {
        head + param_bullets(f.params)
    };
    params + "Return Type: "@ + return_text(f) + "\n"@
        + "\n### Implementation Details (Natural Language)\n"@ + intent_bullets(f)
}

/// The layout instructions of the full-program prompt.
pub open spec fn structure_section(is_standalone: bool) -> Seq<char> {
    let head = "\n### Structure Instructions\n"@ + "1. Imports (e.g. `use ...`)\n"@
        + "2. Helper Structs (if any from Schemas)\n"@ + "3. The Logic Function (`fn `...)\n"@;
    if is_standalone {
        head + "4. The `main` Function: DEFINE `fn main() { ... }` at the END of the file.\n"@
            + "   - Inside `main`, parse CLI arguments using `std::env::args()`.\n"@
            + "   - Pass the parsed arguments to the logic function.\n"@
            + "   - IMPORTANT: `fn main()` must be a function DEFINITION, not a function call.\n"@
    } else {
        head + "4. (No `main` function)\n"@
    }
}

/// The coding guidelines of the full-program prompt.
pub open spec fn guidelines_section(is_standalone: bool) -> Seq<char> {
    let head = "\n### Coding Guidelines\n"@;
    let body = if is_standalone {
        head + "- `fn main()` must be at the root level, NOT inside any other function.\n"@
            + "- Use `String::from` for string literals. Match types exactly.\n"@
            + "- In `if/else` expressions returning values, do NOT put a semicolon after the final expression.\n"@
            + "- Always use `let` to define new variables.\n"@
            + "- Do NOT use unstable features. Use standard library methods only.\n"@
            + "- Return `()` from `main`.\n"@
    } else {
        head
    };
    body + "- Output ONLY the Rust code. No explanations, no markdown.\n"@
}

/// The prompt asking for a complete program for flow `f`.
pub open spec fn ai_prompt(c: ContextModel, f: FlowModel, is_standalone: bool) -> Seq<char> {
    "You are an AI Coding Agent. Your task is to generate a COMPLETE, RUNNABLE Rust source file based on the following logic specification.\n\n"@
        + few_shot_text(is_standalone) + schemas_section(c) + flow_section(f) + structure_section(
        is_standalone,
    ) + guidelines_section(is_standalone)
}

impl Context {
    /// How a type is written (see the spec function [`format_type`]).
    pub fn format_type(ty: &Type) -> (r: String)
        ensures
            r@ == format_type(ty@),
        decreases ty,
    {
        match ty {
            Type::I32 => String::from_str("i32"),
            Type::F32 => String::from_str("f32"),
            Type::Bool => String::from_str("bool"),
            Type::Str => String::from_str("String"),
            Type::Void => String::from_str("()"),
            Type::Custom(s) => s.clone(),
            Type::Stream(t) => {
                let mut r = String::from_str("impl Stream<Item=");
                let inner = Self::format_type(&**t);
                r.append(inner.as_str());
                r.append(">");
                r
            },
            Type::List(t) => {
                let mut r = String::from_str("Vec<");
                let inner = Self::format_type(&**t);
                r.append(inner.as_str());
                r.append(">");
                r
            },
            Type::Option(t) => {
                let mut r = String::from_str("Option<");
                let inner = Self::format_type(&**t);
                r.append(inner.as_str());
                r.append(">");
                r
            },
        }
    }

    fn type_or_unit(ty: &Option<Type>) -> (r: String)
        ensures
            r@ == type_or_unit(opt_type_model(*ty)),
    {
        match ty {
            Some(t) => Self::format_type(t),
            None => String::from_str("()"),
        }
    }

    fn build_few_shot_section(is_standalone: bool) -> (r: String)
        ensures
            r@ == few_shot_text(is_standalone),
    {
        let mut s = String::new();
        s.append("### Example\n\n");
        if is_standalone {
            s.append("Specification:\n");
            s.append("- Function: `greet`\n");
            s.append("- Parameters: name: String\n");
            s.append("- Return: ()\n");
            s.append("- Intent: Print \"Hello \" followed by name\n\n");
            s.append("Generated Code:\n");
            s.append("```rust\n");
            s.append("fn greet(name: String) {\n");
            s.append("    println!(\"Hello {}\", name);\n");
            s.append("}\n\n");
            s.append("fn main() {\n");
            s.append("    let name = String::from(\"world\");\n");
            s.append("    greet(name);\n");
            s.append("}\n");
            s.append("```\n\n");
        } else {
            s.append("Specification:\n");
            s.append("- Function: `add`\n");
            s.append("- Parameters: a: i32, b: i32\n");
            s.append("- Return: i32\n");
            s.append("- Intent: Return sum of a and b\n\n");
            s.append("Generated Code:\n");
            s.append("```rust\n");
            s.append("fn add(a: i32, b: i32) -> i32 {\n");
            s.append("    a + b\n");
            s.append("}\n");
            s.append("```\n\n");
        }
        s.append("Now generate code for the following specification:\n\n");
        s
    }

    fn build_params_signature(flow: &Flow) -> (r: String)
        ensures
            r@ == params_signature(flow@),
    {
        let mut items: Vec<String> = Vec::new();
        let mut i: usize = 0;
        while i < flow.params.len()
            invariant
                i <= flow.params@.len(),
                items@.map_values(|s: String| s@) =~= flow@.params.take(i as int).map_values(
                    |p: ParamModel| param_item(p),
                ),
            decreases flow.params@.len() - i,
        {
            let p = &flow.params[i];
            let mut item = p.name.clone();
            item.append(": ");
            let ty = Self::type_or_unit(&p.ty);
            item.append(ty.as_str());
            let ghost old_items = items@;
            items.push(item);
            assert(flow@.params.take(i + 1) =~= flow@.params.take(i as int).push(p@));
            assert(items@.map_values(|s: String| s@) =~= old_items.map_values(|s: String| s@).push(
                item@,
            ));
            i = i + 1;
        }
        assert(flow@.params.take(flow.params@.len() as int) =~= flow@.params);
        join_strings(&items, ", ")
    }

    fn build_return_type(flow: &Flow) -> (r: String)
        ensures
            r@ == return_text(flow@),
    {
        Self::type_or_unit(&flow.return_ty)
    }

    fn build_default_value(ty: &Type) -> (r: String)
        ensures
            r@ == default_value(ty@),
    {
        match ty {
            Type::I32 => String::from_str("0"),
            Type::F32 => String::from_str("0.0"),
            Type::Bool => String::from_str("false"),
            Type::Str => String::from_str("String::from(\"test\")"),
            Type::Void => String::from_str("()"),
            Type::List(inner) => {
                let mut r = String::from_str("Vec::<");
                let t = Self::format_type(&**inner);
                r.append(t.as_str());
                r.append(">::new()");
                r
            },
            Type::Option(_) => String::from_str("None"),
            _ => String::from_str("Default::default()"),
        }
    }

    #[verifier::spinoff_prover]
    #[verifier::rlimit(40)]
    fn build_main_call(flow: &Flow) -> (r: String)
        ensures
            r@ == main_text(flow@),
    {
        let mut body = String::from_str("fn main() {\n");
        body.append("    let args: Vec<String> = std::env::args().collect();\n");
        let ghost head = body@;
        let mut names: Vec<String> = Vec::new();
        let mut i: usize = 0;
        assert(flow@.params.take(0) =~= Seq::<ParamModel>::empty());
        while i < flow.params.len()
            invariant
                i <= flow.params@.len(),
                body@ == head + arg_lines(flow@.params.take(i as int)),
                names@.map_values(|s: String| s@) =~= flow@.params.take(i as int).map_values(
                    |p: ParamModel| p.name,
                ),
            decreases flow.params@.len() - i,
        {
            let p = &flow.params[i];
            let void = Type::Void;
            let ty = match &p.ty {
                Some(t) => t,
                None => &void,
            };
            let default_val = Self::build_default_value(ty);
            let type_str = Self::format_type(ty);
            let index = decimal_string(i);
            body.append("    let ");
            body.append(p.name.as_str());
            body.append(" = args.get(");
            body.append(index.as_str());
            body.append(" + 1).and_then(|s| s.parse::<");
            body.append(type_str.as_str());
            body.append(">().ok()).unwrap_or(");
            body.append(default_val.as_str());
            body.append(");\n");
            let ghost old_names = names@;
            names.push(p.name.clone());
            assert(flow@.params.take(i + 1) =~= flow@.params.take(i as int).push(p@));
            assert(flow@.params.take(i + 1).drop_last() =~= flow@.params.take(i as int));
            assert(names@.map_values(|s: String| s@) =~= old_names.map_values(|s: String| s@).push(
                p.name@,
            ));
            i = i + 1;
        }
        assert(flow@.params.take(flow.params@.len() as int) =~= flow@.params);
        let args = join_strings(&names, ", ");
        let return_type = Self::build_return_type(flow);
        if str_equal(return_type.as_str(), "()") {
            body.append("    ");
            body.append(flow.name.as_str());
            body.append("(");
            body.append(args.as_str());
            body.append(");\n");
        } else {
            body.append("    let result = ");
            body.append(flow.name.as_str());
            body.append("(");
            body.append(args.as_str());
            body.append(");\n");
            body.append("    println!(\"{:?}\", result);\n");
        }
        body.append("}");
        body
    }

    fn intent_bullets(flow: &Flow) -> (r: String)
        ensures
            r@ == intent_bullets(flow@),
    {
        let mut s = String::new();
        if let Implementation::Inline(lines) = &flow.implementation {
            let ghost ls = lines_model(lines@);
            let mut i: usize = 0;
            assert(ls.take(0) =~= Seq::<Seq<char>>::empty());
            while i < lines.len()
                invariant
                    i <= lines@.len(),
                    ls == lines_model(lines@),
                    s@ == bullets(ls.take(i as int)),
                decreases lines@.len() - i,
            {
                assert(ls.take(i + 1).drop_last() =~= ls.take(i as int));
                s.append("- ");
                s.append(lines[i].as_str());
                s.append("\n");
                i = i + 1;
            }
            assert(ls.take(lines@.len() as int) =~= ls);
        }
        s
    }

    fn schema_inline(schema: &Schema) -> (r: String)
        ensures
            r@ == schema_inline(schema@),
    {
        let mut items: Vec<String> = Vec::new();
        let mut i: usize = 0;
        while i < schema.fields.len()
            invariant
                i <= schema.fields@.len(),
                items@.map_values(|s: String| s@) =~= schema@.fields.take(i as int).map_values(
                    |fd: FieldModel| field_item(fd),
                ),
            decreases schema.fields@.len() - i,
        {
            let f = &schema.fields[i];
            let mut item = f.name.clone();
            item.append(": ");
            let t = Self::format_type(&f.ty);
            item.append(t.as_str());
            let ghost old_items = items@;
            items.push(item);
            assert(schema@.fields.take(i + 1) =~= schema@.fields.take(i as int).push(f@));
            assert(items@.map_values(|s: String| s@) =~= old_items.map_values(|s: String| s@).push(
                item@,
            ));
            i = i + 1;
        }
        assert(schema@.fields.take(schema.fields@.len() as int) =~= schema@.fields);
        let joined = join_strings(&items, ", ");
        let mut r = String::from_str("struct ");
        r.append(schema.name.as_str());
        r.append(" { ");
        r.append(joined.as_str());
        r.append(" }\n");
        r
    }

    fn schemas_inline(&self) -> (r: String)
        ensures
            r@ == schemas_inline(self@.schemas),
    {
        let ghost es = self@.schemas;
        let mut s = String::new();
        let mut i: usize = 0;
        assert(es.take(0) =~= Seq::<(Seq<char>, SchemaModel)>::empty());
        while i < self.schemas.len()
            invariant
                i <= self.schemas@.len(),
                es == self@.schemas,
                s@ == schemas_inline(es.take(i as int)),
            decreases self.schemas@.len() - i,
        {
            assert(es.take(i + 1).drop_last() =~= es.take(i as int));
            let line = Self::schema_inline(&self.schemas[i].1);
            s.append(line.as_str());
            i = i + 1;
        }
        assert(es.take(self.schemas@.len() as int) =~= es);
        s
    }

    /// The prompt asking for the body of the flow named `target_flow`
    /// only, and the program to put that body in (its signature, the
    /// placeholder `{BODY}`, and a `main` reading the parameters from the
    /// command line). `None` when no flow has that name.
    pub fn generate_body_only_prompt(&self, target_flow: &str) -> (r: Option<(String, String)>)
        ensures
            lookup(self@.flows, target_flow@) is None ==> r is None,
            lookup(self@.flows, target_flow@) matches Some(f) ==> r matches Some((p, w)) && p@
                == body_only_prompt(self@, f) && w@ == body_wrapper(f),
    {
        let flow = match self.get_flow(target_flow) {
            Some(f) => f,
            None => {
                return None;
            },
        };
        let mut prompt = String::new();
        prompt.append(
            "You are a Rust code generator. Generate ONLY the function body (the code inside the braces). Do NOT include the function signature, imports, or main function.\n\n",
        );
        prompt.append("### Example\n");
        prompt.append("Function: `greet(name: String) -> ()`\n");
        prompt.append("Intent: Print \"Hello \" followed by name\n");
        prompt.append("Body:\nprintln!(\"Hello {}\", name);\n\n");
        if self.schemas.len() > 0 {
            prompt.append("### Available Structs\n");
            let structs = self.schemas_inline();
            prompt.append(structs.as_str());
            prompt.append("\n");
        }
        let params_sig = Self::build_params_signature(flow);
        let return_type = Self::build_return_type(flow);
        prompt.append("### Your Task\nFunction: `");
        prompt.append(flow.name.as_str());
        prompt.append("(");
        prompt.append(params_sig.as_str());
        prompt.append(") -> ");
        prompt.append(return_type.as_str());
        prompt.append("`\n");
        prompt.append("Intent:\n");
        let intents = Self::intent_bullets(flow);
        prompt.append(intents.as_str());
        prompt.append(
            "\nGenerate ONLY the body code (no `fn`, no `main`, no `use`). Output raw Rust statements only.\n",
        );
        let mut wrapper = String::new();
        if str_equal(return_type.as_str(), "()") {
            wrapper.append("fn ");
            wrapper.append(flow.name.as_str());
            wrapper.append("(");
            wrapper.append(params_sig.as_str());
            wrapper.append(") {\n");
        } else {
            wrapper.append("fn ");
            wrapper.append(flow.name.as_str());
            wrapper.append("(");
            wrapper.append(params_sig.as_str());
            wrapper.append(") -> ");
            wrapper.append(return_type.as_str());
            wrapper.append(" {\n");
        }
        wrapper.append("{BODY}\n");
        wrapper.append("}\n\n");
        let main_call = Self::build_main_call(flow);
        wrapper.append(main_call.as_str());
        wrapper.append("\n");
        Some((prompt, wrapper))
    }

    fn schema_block(schema: &Schema) -> (r: String)
        ensures
            r@ == schema_block(schema@),
    {
        let mut r = String::from_str("struct ");
        r.append(schema.name.as_str());
        r.append(" {\n");
        let ghost head = r@;
        let ghost fs = schema@.fields;
        let mut i: usize = 0;
        assert(fs.take(0) =~= Seq::<FieldModel>::empty());
        while i < schema.fields.len()
            invariant
                i <= schema.fields@.len(),
                fs == schema@.fields,
                r@ == head + field_lines(fs.take(i as int)),
            decreases schema.fields@.len() - i,
        {
            let f = &schema.fields[i];
            assert(fs.take(i + 1).drop_last() =~= fs.take(i as int));
            assert(fs.take(i + 1).last() == f@);
            r.append("    ");
            r.append(f.name.as_str());
            r.append(": ");
            let t = Self::format_type(&f.ty);
            r.append(t.as_str());
            r.append(",\n");
            i = i + 1;
        }
        assert(fs.take(schema.fields@.len() as int) =~= fs);
        r.append("}\n");
        r
    }

    fn param_bullets(flow: &Flow) -> (r: String)
        ensures
            r@ == param_bullets(flow@.params),
    {
        let ghost ps = flow@.params;
        let mut s = String::new();
        let mut i: usize = 0;
        assert(ps.take(0) =~= Seq::<ParamModel>::empty());
        while i < flow.params.len()
            invariant
                i <= flow.params@.len(),
                ps == flow@.params,
                s@ == param_bullets(ps.take(i as int)),
            decreases flow.params@.len() - i,
        {
            let p = &flow.params[i];
            assert(ps.take(i + 1).drop_last() =~= ps.take(i as int));
            assert(ps.take(i + 1).last() == p@);
            s.append("- ");
            let mut item = p.name.clone();
            item.append(": ");
            let ty = Self::type_or_unit(&p.ty);
            item.append(ty.as_str());
            s.append(item.as_str());
            s.append("\n");
            i = i + 1;
        }
        assert(ps.take(flow.params@.len() as int) =~= ps);
        s
    }

    fn schemas_section(&self) -> (r: String)
        ensures
            r@ == schemas_section(self@),
    {
        let mut s = String::from_str("### Schemas\n");
        if self.schemas.len() == 0 {
            s.append("None\n");
        }
        let ghost head = s@;
        let ghost es = self@.schemas;
        let mut i: usize = 0;
        assert(es.take(0) =~= Seq::<(Seq<char>, SchemaModel)>::empty());
        while i < self.schemas.len()
            invariant
                i <= self.schemas@.len(),
                es == self@.schemas,
                s@ == head + schema_blocks(es.take(i as int)),
            decreases self.schemas@.len() - i,
        {
            assert(es.take(i + 1).drop_last() =~= es.take(i as int));
            let block = Self::schema_block(&self.schemas[i].1);
            s.append(block.as_str());
            i = i + 1;
        }
        assert(es.take(self.schemas@.len() as int) =~= es);
        s
    }

    fn flow_section(flow: &Flow) -> (r: String)
        ensures
            r@ == flow_section(flow@),
    {
        let mut s = String::from_str("\n### Logic Specification (Flow)\n");
        s.append("Function Name: `");
        s.append(flow.name.as_str());
        s.append("`\n");
        s.append("Parameters:\n");
        if flow.params.len() == 0 {
            s.append("- None\n");
        } else {
            let ps = Self::param_bullets(flow);
            s.append(ps.as_str());
        }
        let return_type = Self::build_return_type(flow);
        s.append("Return Type: ");
        s.append(return_type.as_str());
        s.append("\n");
        s.append("\n### Implementation Details (Natural Language)\n");
        let intents = Self::intent_bullets(flow);
        s.append(intents.as_str());
        s
    }

    fn structure_section(is_standalone: bool) -> (r: String)
        ensures
            r@ == structure_section(is_standalone),
    {
        let mut s = String::from_str("\n### Structure Instructions\n");
        s.append("1. Imports (e.g. `use ...`)\n");
        s.append("2. Helper Structs (if any from Schemas)\n");
        s.append("3. The Logic Function (`fn `...)\n");
        if is_standalone {
            s.append("4. The `main` Function: DEFINE `fn main() { ... }` at the END of the file.\n");
            s.append("   - Inside `main`, parse CLI arguments using `std::env::args()`.\n");
            s.append("   - Pass the parsed arguments to the logic function.\n");
            s.append(
                "   - IMPORTANT: `fn main()` must be a function DEFINITION, not a function call.\n",
            );
        } else {
            s.append("4. (No `main` function)\n");
        }
        s
    }

    fn guidelines_section(is_standalone: bool) -> (r: String)
        ensures
            r@ == guidelines_section(is_standalone),
    {
        let mut s = String::from_str("\n### Coding Guidelines\n");
        if is_standalone {
            s.append("- `fn main()` must be at the root level, NOT inside any other function.\n");
            s.append("- Use `String::from` for string literals. Match types exactly.\n");
            s.append(
                "- In `if/else` expressions returning values, do NOT put a semicolon after the final expression.\n",
            );
            s.append("- Always use `let` to define new variables.\n");
            s.append("- Do NOT use unstable features. Use standard library methods only.\n");
            s.append("- Return `()` from `main`.\n");
        }
        s.append("- Output ONLY the Rust code. No explanations, no markdown.\n");
        s
    }

    /// The prompt asking for a complete program for the flow named
    /// `target_flow`: a worked example, the schemas, the flow's signature
    /// and intent lines, and layout and coding instructions (with a `main`
    /// reading the command line when `is_standalone`). `None` when no flow
    /// has that name.
    pub fn generate_ai_prompt(&self, target_flow: &str, is_standalone: bool) -> (r: Option<String>)
        ensures
            lookup(self@.flows, target_flow@) is None ==> r is None,
            lookup(self@.flows, target_flow@) matches Some(f) ==> r matches Some(p) && p@
                == ai_prompt(self@, f, is_standalone),
    {
        let flow = match self.get_flow(target_flow) {
            Some(f) => f,
            None => {
                return None;
            },
        };
        let mut prompt = String::from_str(
            "You are an AI Coding Agent. Your task is to generate a COMPLETE, RUNNABLE Rust source file based on the following logic specification.\n\n",
        );
        let few = Self::build_few_shot_section(is_standalone);
        prompt.append(few.as_str());
        let schemas = self.schemas_section();
        prompt.append(schemas.as_str());
        let fl = Self::flow_section(flow);
        prompt.append(fl.as_str());
        let st = Self::structure_section(is_standalone);
        prompt.append(st.as_str());
        let gl = Self::guidelines_section(is_standalone);
        prompt.append(gl.as_str());
        Some(prompt)
    }
}

/// The prompt asking to fix code that failed to compile: the error text,
/// cut to its first 500 bytes when longer, then the failed code.
pub open spec fn correction_prompt(failed_code: Seq<char>, error_msg: Seq<char>) -> Seq<char> {
    "You are an AI Coding Agent. The following Rust code failed to compile. Fix the error and output the COMPLETE corrected Rust source file.\n\n"@
        + "### Compiler Error\n"@ + truncate_bytes(error_msg, 500) + "\n\n### Failed Code\n```rust\n"@
        + failed_code + "\n```\n\n"@
        + "Output ONLY the corrected Rust code. No explanations, no markdown.\n"@
}

impl Context {
    /// Builds a fresh prompt asking to fix `failed_code`, which failed with
    /// `error_msg`; the error is cut to its first 500 bytes when longer,
    /// which must then end on a character boundary.
    pub fn build_correction_prompt(failed_code: &str, error_msg: &str) -> (r: String)
        requires
            utf8_len(error_msg@) > 500 ==> char_boundary(error_msg@, 500),
        ensures
            r@ == correction_prompt(failed_code@, error_msg@),
    {
        let mut prompt = String::new();
        prompt.append(
            "You are an AI Coding Agent. The following Rust code failed to compile. Fix the error and output the COMPLETE corrected Rust source file.\n\n",
        );
        prompt.append("### Compiler Error\n");
        let v = chars_of(error_msg);
        let t = truncate_bytes_exec(&v, 500);
        let truncated = string_from_chars(&t);
        prompt.append(truncated.as_str());
        prompt.append("\n\n### Failed Code\n```rust\n");
        prompt.append(failed_code);
        prompt.append("\n```\n\n");
        prompt.append("Output ONLY the corrected Rust code. No explanations, no markdown.\n");
        prompt
    }
}

/// Reading back a write: after storing `v` under `k`, looking `k` up gives
/// `v`, and every other name gives what it gave before.
pub proof fn lemma_upsert_lookup<V>(es: Seq<(Seq<char>, V)>, k: Seq<char>, v: V, other: Seq<char>)
    ensures
        lookup(upsert(es, k, v), k) == Some(v),
        other != k ==> lookup(upsert(es, k, v), other) == lookup(es, other),
{
    lemma_key_index_from(es, k, 0);
    lemma_key_index_from(es, other, 0);
    let es2 = upsert(es, k, v);
    lemma_key_index_from(es2, k, 0);
    lemma_key_index_from(es2, other, 0);
    match key_index(es, k) {
        Some(i) => {
            assert(es2[i].0 == k);
            if key_index(es2, k) != Some(i) {
                let j = key_index(es2, k)->0;
                assert(j < i ==> es2[j] == es[j]);
            }
            if other != k {
                match key_index(es, other) {
                    Some(j) => {
                        assert(es2[j] == es[j]);
                        if key_index(es2, other) != Some(j) {
                            let m = key_index(es2, other)->0;
                            assert(m != i);
                            assert(es2[m] == es[m]);
                        }
                    },
                    None => {
                        if key_index(es2, other) is Some {
                            let m = key_index(es2, other)->0;
                            assert(m != i);
                            assert(es2[m] == es[m]);
                        }
                    },
                }
            }
        },
        None => {
            assert(es2[es.len() as int].0 == k);
            if key_index(es2, k) != Some(es.len() as int) {
                let j = key_index(es2, k)->0;
                assert(es2[j] == es[j]);
            }
            if other != k {
                match key_index(es, other) {
                    Some(j) => {
                        assert(es2[j] == es[j]);
                        if key_index(es2, other) != Some(j) {
                            let m = key_index(es2, other)->0;
                            assert(es2[m] == es[m]);
                        }
                    },
                    None => {
                        if key_index(es2, other) is Some {
                            let m = key_index(es2, other)->0;
                            assert(m < es.len());
                            assert(es2[m] == es[m]);
                        }
                    },
                }
            }
        },
    }
}

/// Storing under a name never makes two entries share a name.
pub proof fn lemma_upsert_keeps_keys_unique<V>(es: Seq<(Seq<char>, V)>, k: Seq<char>, v: V)
    requires
        keys_unique(es),
    ensures
        keys_unique(upsert(es, k, v)),
{
    lemma_key_index_from(es, k, 0);
    let es2 = upsert(es, k, v);
    assert forall|i: int, j: int| 0 <= i < j < es2.len() implies es2[i].0 != es2[j].0 by {
        match key_index(es, k) {
            Some(m) => {
                if i == m {
                    assert(es[j].0 != es[m].0);
                } else if j == m {
                    assert(es[i].0 != es[m].0);
                }
            },
            None => {
                if j == es.len() {
                    assert(es[i].0 != k);
                }
            },
        }
    }
}

/// Normalizing an identifier twice is normalizing it once: the result has
/// no surrounding whitespace and no spaces.
pub proof fn lemma_normalized_idempotent(id: Seq<char>)
    ensures
        normalized(normalized(id)) == normalized(id),
        forall|i: int| 0 <= i < normalized(id).len() ==> normalized(id)[i] != ' ',
{
    let t = trim(id);
    let n = normalized(id);
    let a = skip_ws(id, 0);
    lemma_skip_ws_bounds(id, 0);
    lemma_back_ws_bounds(id, a, id.len() as int);
    assert(n.len() == t.len());
    if n.len() > 0 {
        assert(t[0] == id[a]);
        assert(!is_ws(t[0]));
        assert(!is_ws(n[0]));
        assert(!is_ws(t[t.len() - 1]));
        assert(!is_ws(n[n.len() - 1]));
    }
    lemma_skip_ws_bounds(n, 0);
    if n.len() > 0 {
        assert(skip_ws(n, 0) == 0);
        lemma_back_ws_bounds(n, 0, n.len() as int);
        assert(back_ws(n, 0, n.len() as int) == n.len());
    }
    assert(trim(n) =~= n);
    assert(normalized(n) =~= n);
}

/// Reading back a registration: after a flow is registered, the context
/// holds it under its normalized name (the default name for a flow named
/// `implicit_flow`, when one is given), renamed to that name.
pub proof fn lemma_registered_flow_found(
    schemas: Seq<(Seq<char>, SchemaModel)>,
    flows: Seq<(Seq<char>, FlowModel)>,
    f: FlowModel,
    default_name: Option<Seq<char>>,
)
    ensures
        ({
            let base = if f.name == "implicit_flow"@ && default_name is Some {
                default_name->0
            } else {
                f.name
            };
            let name = normalized(base);
            lookup(register_one(schemas, flows, DeclarationModel::Flow(f), default_name).1, name)
                == Some(FlowModel { name: name, ..f })
        }),
{
    let base = if f.name == "implicit_flow"@ && default_name is Some {
        default_name->0
    } else {
        f.name
    };
    let name = normalized(base);
    lemma_upsert_lookup(flows, name, FlowModel { name: name, ..f }, name);
}

/// Registering keeps the names of stored schemas and flows distinct.
pub proof fn lemma_register_keeps_keys_unique(
    schemas: Seq<(Seq<char>, SchemaModel)>,
    flows: Seq<(Seq<char>, FlowModel)>,
    ds: Seq<DeclarationModel>,
    default_name: Option<Seq<char>>,
)
    requires
        keys_unique(schemas),
        keys_unique(flows),
    ensures
        keys_unique(register_all(schemas, flows, ds, default_name).0),
        keys_unique(register_all(schemas, flows, ds, default_name).1),
    decreases ds.len(),
{
    if ds.len() > 0 {
        lemma_register_keeps_keys_unique(schemas, flows, ds.drop_last(), default_name);
        let (s, f) = register_all(schemas, flows, ds.drop_last(), default_name);
        match ds.last() {
            DeclarationModel::Schema(sc) => {
                lemma_upsert_keeps_keys_unique(s, normalized(sc.name), sc);
            },
            DeclarationModel::Flow(fl) => {
                let base = if fl.name == "implicit_flow"@ && default_name is Some {
                    default_name->0
                } else {
                    fl.name
                };
                let name = normalized(base);
                lemma_upsert_keeps_keys_unique(f, name, FlowModel { name: name, ..fl });
            },
            DeclarationModel::Import(_) | DeclarationModel::Enum(_) => {},
        }
    }
}

/// The program around a generated body always holds the `{BODY}`
/// placeholder that the body replaces.
pub proof fn lemma_wrapper_has_placeholder(f: FlowModel)
    ensures
        contains(body_wrapper(f), "{BODY}"@),
{
    reveal_strlit("{BODY}");
    reveal_strlit("{BODY}\n");
    let head = if return_text(f) == "()"@ {
        "fn "@ + f.name + "("@ + params_signature(f) + ") {\n"@
    } else {
        "fn "@ + f.name + "("@ + params_signature(f) + ") -> "@ + return_text(f) + " {\n"@
    };
    let w = body_wrapper(f);
    let k = head.len() as int;
    assert(w.subrange(k, k + 6) =~= "{BODY}"@);
    assert(occurs_at(w, "{BODY}"@, k));
    lemma_find_from_bounds(w, "{BODY}"@, 0);
}

/// The encoded length of a correction prompt: that of its fixed text and
/// the failed code, plus that of the error as cut.
proof fn lemma_correction_len(code: Seq<char>, e: Seq<char>)
    ensures
        utf8_len(correction_prompt(code, e)) == utf8_len(correction_prompt(code, Seq::empty()))
            + utf8_len(truncate_bytes(e, 500)),
{
    let a = "You are an AI Coding Agent. The following Rust code failed to compile. Fix the error and output the COMPLETE corrected Rust source file.\n\n"@
        + "### Compiler Error\n"@;
    let b = "\n\n### Failed Code\n```rust\n"@;
    let c = "\n```\n\n"@;
    let d = "Output ONLY the corrected Rust code. No explanations, no markdown.\n"@;
    let t = truncate_bytes(e, 500);
    let z = truncate_bytes(Seq::<char>::empty(), 500);
    assert(utf8_len(Seq::<char>::empty()) == 0);
    assert(z == Seq::<char>::empty());
    assert(a + z =~= a);
    lemma_utf8_len_concat(a, t);
    lemma_utf8_len_concat(a + t, b);
    lemma_utf8_len_concat(a + t + b, code);
    lemma_utf8_len_concat(a + t + b + code, c);
    lemma_utf8_len_concat(a + t + b + code + c, d);
    lemma_utf8_len_concat(a, b);
    lemma_utf8_len_concat(a + b, code);
    lemma_utf8_len_concat(a + b + code, c);
    lemma_utf8_len_concat(a + b + code + c, d);
    assert(correction_prompt(code, e) == a + t + b + code + c + d);
    assert(correction_prompt(code, Seq::empty()) == a + z + b + code + c + d);
}

/// Cutting a longer error to its first 500 bytes before building the
/// correction prompt changes nothing, and the prompt then holds exactly 500
/// bytes of the error (byte 500 falling between characters, as the cut
/// requires).
pub proof fn lemma_correction_cut(code: Seq<char>, e: Seq<char>)
    requires
        utf8_len(e) > 500,
        char_boundary(e, 500),
    ensures
        correction_prompt(code, truncate_bytes(e, 500)) == correction_prompt(code, e),
        utf8_len(correction_prompt(code, e)) == utf8_len(correction_prompt(code, Seq::empty()))
            + 500,
{
    let k = choose|k: int| 0 <= k <= e.len() && #[trigger] utf8_len(e.take(k)) == 500;
    lemma_prefix_reaching_boundary(e, 500, k, 0);
    let t = truncate_bytes(e, 500);
    assert(t == e.take(k));
    assert(truncate_bytes(t, 500) == t);
    lemma_correction_len(code, e);
}

/// Storing entries one after the other with [`upsert`].
pub open spec fn upsert_all<V>(es: Seq<(Seq<char>, V)>, ops: Seq<(Seq<char>, V)>) -> Seq<
    (Seq<char>, V),
>
    decreases ops.len(),
{
    if ops.len() == 0 {
        es
    } else {
        upsert(upsert_all(es, ops.drop_last()), ops.last().0, ops.last().1)
    }
}

/// The value last given to `k` among `ops`.
pub open spec fn last_value<V>(ops: Seq<(Seq<char>, V)>, k: Seq<char>) -> Option<V>
    decreases ops.len(),
{
    if ops.len() == 0 {
        None
    } else if ops.last().0 == k {
        Some(ops.last().1)
    } else {
        last_value(ops.drop_last(), k)
    }
}

/// The entries for the schemas among `ds`, as registering stores them.
pub open spec fn schema_entries(ds: Seq<DeclarationModel>) -> Seq<(Seq<char>, SchemaModel)>
    decreases ds.len(),
{
    if ds.len() == 0 {
        Seq::empty()
    } else {
        let r = schema_entries(ds.drop_last());
        match ds.last() {
            DeclarationModel::Schema(sc) => r.push((normalized(sc.name), sc)),
            _ => r,
        }
    }
}

/// The entry registering stores for a flow.
pub open spec fn flow_entry(f: FlowModel, default_name: Option<Seq<char>>) -> (Seq<char>, FlowModel) {
    let base = if f.name == "implicit_flow"@ && default_name is Some {
        default_name->0
    } else {
        f.name
    };
    let name = normalized(base);
    (name, FlowModel { name: name, ..f })
}

/// The entries for the flows among `ds`, as registering stores them.
pub open spec fn flow_entries(ds: Seq<DeclarationModel>, default_name: Option<Seq<char>>) -> Seq<
    (Seq<char>, FlowModel),
>
    decreases ds.len(),
{
    if ds.len() == 0 {
        Seq::empty()
    } else {
        let r = flow_entries(ds.drop_last(), default_name);
        match ds.last() {
            DeclarationModel::Flow(f) => r.push(flow_entry(f, default_name)),
            _ => r,
        }
    }
}

proof fn lemma_register_as_upserts(
    schemas: Seq<(Seq<char>, SchemaModel)>,
    flows: Seq<(Seq<char>, FlowModel)>,
    ds: Seq<DeclarationModel>,
    default_name: Option<Seq<char>>,
)
    ensures
        register_all(schemas, flows, ds, default_name) == (
            upsert_all(schemas, schema_entries(ds)),
            upsert_all(flows, flow_entries(ds, default_name)),
        ),
    decreases ds.len(),
{
    if ds.len() > 0 {
        lemma_register_as_upserts(schemas, flows, ds.drop_last(), default_name);
        let so = schema_entries(ds.drop_last());
        let fo = flow_entries(ds.drop_last(), default_name);
        match ds.last() {
            DeclarationModel::Schema(sc) => {
                assert(so.push((normalized(sc.name), sc)).drop_last() =~= so);
            },
            DeclarationModel::Flow(f) => {
                assert(fo.push(flow_entry(f, default_name)).drop_last() =~= fo);
            },
            _ => {},
        }
    }
}

proof fn lemma_upsert_all_lookup<V>(es: Seq<(Seq<char>, V)>, ops: Seq<(Seq<char>, V)>, k: Seq<char>)
    ensures
        lookup(upsert_all(es, ops), k) == match last_value(ops, k) {
            Some(v) => Some(v),
            None => lookup(es, k),
        },
    decreases ops.len(),
{
    if ops.len() > 0 {
        lemma_upsert_all_lookup(es, ops.drop_last(), k);
        lemma_upsert_lookup(upsert_all(es, ops.drop_last()), ops.last().0, ops.last().1, k);
    }
}

proof fn lemma_last_value_some<V>(ops: Seq<(Seq<char>, V)>, j: int)
    requires
        0 <= j < ops.len(),
    ensures
        last_value(ops, ops[j].0) is Some,
    decreases ops.len(),
{
    if ops.last().0 != ops[j].0 {
        lemma_last_value_some(ops.drop_last(), j);
    }
}

proof fn lemma_key_index_unique<V>(es: Seq<(Seq<char>, V)>, i: int)
    requires
        keys_unique(es),
        0 <= i < es.len(),
    ensures
        key_index(es, es[i].0) == Some(i),
{
    lemma_key_index_from(es, es[i].0, 0);
}

proof fn lemma_upsert_all_keeps_keys_unique<V>(es: Seq<(Seq<char>, V)>, ops: Seq<(Seq<char>, V)>)
    requires
        keys_unique(es),
    ensures
        keys_unique(upsert_all(es, ops)),
    decreases ops.len(),
{
    if ops.len() > 0 {
        lemma_upsert_all_keeps_keys_unique(es, ops.drop_last());
        lemma_upsert_keeps_keys_unique(upsert_all(es, ops.drop_last()), ops.last().0, ops.last().1);
    }
}

/// Storing entries whose names are all present already keeps every name in
/// its place.
proof fn lemma_upsert_all_same_keys<V>(es: Seq<(Seq<char>, V)>, ops: Seq<(Seq<char>, V)>)
    requires
        forall|j: int| 0 <= j < ops.len() ==> (#[trigger] key_index(es, ops[j].0)) is Some,
    ensures
        upsert_all(es, ops).len() == es.len(),
        forall|i: int| 0 <= i < es.len() ==> (#[trigger] upsert_all(es, ops)[i]).0 == es[i].0,
    decreases ops.len(),
{
    if ops.len() > 0 {
        let prev = ops.drop_last();
        assert forall|j: int| 0 <= j < prev.len() implies (#[trigger] key_index(es, prev[j].0)) is Some by {
            assert(prev[j] == ops[j]);
        }
        lemma_upsert_all_same_keys(es, prev);
        let y = upsert_all(es, prev);
        let k = ops.last().0;
        assert(key_index(es, ops[ops.len() - 1].0) is Some);
        let m = key_index(es, k)->0;
        lemma_key_index_from(es, k, 0);
        lemma_key_index_from(y, k, 0);
        assert(y[m].0 == k);
    }
}

/// Registering the same declarations a second time changes nothing: each
/// name keeps the entry it was last given.
pub proof fn lemma_register_twice(
    schemas: Seq<(Seq<char>, SchemaModel)>,
    flows: Seq<(Seq<char>, FlowModel)>,
    ds: Seq<DeclarationModel>,
    default_name: Option<Seq<char>>,
)
    requires
        keys_unique(schemas),
        keys_unique(flows),
    ensures
        ({
            let (s1, f1) = register_all(schemas, flows, ds, default_name);
            register_all(s1, f1, ds, default_name) == (s1, f1)
        }),
{
    let (s1, f1) = register_all(schemas, flows, ds, default_name);
    lemma_register_as_upserts(schemas, flows, ds, default_name);
    lemma_register_as_upserts(s1, f1, ds, default_name);
    lemma_upsert_all_twice(schemas, schema_entries(ds));
    lemma_upsert_all_twice(flows, flow_entries(ds, default_name));
}

proof fn lemma_upsert_all_twice<V>(es: Seq<(Seq<char>, V)>, ops: Seq<(Seq<char>, V)>)
    requires
        keys_unique(es),
    ensures
        upsert_all(upsert_all(es, ops), ops) == upsert_all(es, ops),
{
    let x = upsert_all(es, ops);
    lemma_upsert_all_keeps_keys_unique(es, ops);
    assert forall|j: int| 0 <= j < ops.len() implies (#[trigger] key_index(x, ops[j].0)) is Some by {
        lemma_last_value_some(ops, j);
        lemma_upsert_all_lookup(es, ops, ops[j].0);
    }
    lemma_upsert_all_same_keys(x, ops);
    let y = upsert_all(x, ops);
    assert forall|i: int| 0 <= i < x.len() implies #[trigger] y[i] == x[i] by {
        let k = x[i].0;
        lemma_key_index_unique(x, i);
        assert(keys_unique(y));
        assert(y[i].0 == k);
        lemma_key_index_unique(y, i);
        lemma_upsert_all_lookup(x, ops, k);
        lemma_upsert_all_lookup(es, ops, k);
    }
    assert(y =~= x);
}

proof fn lemma_upsert_all_preserves<V>(
    es: Seq<(Seq<char>, V)>,
    ops: Seq<(Seq<char>, V)>,
    p: spec_fn((Seq<char>, V)) -> bool,
)
    requires
        forall|i: int| 0 <= i < es.len() ==> p(#[trigger] es[i]),
        forall|j: int| 0 <= j < ops.len() ==> p(#[trigger] ops[j]),
    ensures
        forall|i: int| 0 <= i < upsert_all(es, ops).len() ==> p(#[trigger] upsert_all(es, ops)[i]),
    decreases ops.len(),
{
    if ops.len() > 0 {
        let prev = ops.drop_last();
        assert forall|j: int| 0 <= j < prev.len() implies p(#[trigger] prev[j]) by {
            assert(prev[j] == ops[j]);
        }
        lemma_upsert_all_preserves(es, prev, p);
        let y = upsert_all(es, prev);
        assert(p(ops[ops.len() - 1]));
        let z = upsert(y, ops.last().0, ops.last().1);
        lemma_key_index_from(y, ops.last().0, 0);
        assert(ops.last() == (ops.last().0, ops.last().1));
        assert forall|i: int| 0 <= i < z.len() implies p(#[trigger] z[i]) by {
            match key_index(y, ops.last().0) {
                Some(m) => {
                    if i != m {
                        assert(z[i] == y[i]);
                    }
                },
                None => {
                    if i < y.len() {
                        assert(z[i] == y[i]);
                    }
                },
            }
        }
    }
}

/// Whether every entry is stored under a normalized name.
pub open spec fn names_normalized<V>(es: Seq<(Seq<char>, V)>) -> bool {
    forall|i: int| 0 <= i < es.len() ==> normalized(#[trigger] es[i].0) == es[i].0
}

/// Whether every schema is stored under the normalized form of its name.
pub open spec fn schemas_under_own_name(ss: Seq<(Seq<char>, SchemaModel)>) -> bool {
    forall|i: int| 0 <= i < ss.len() ==> (#[trigger] ss[i]).0 == normalized(ss[i].1.name)
}

/// Whether every flow is stored under its own name.
pub open spec fn flows_under_own_name(fs: Seq<(Seq<char>, FlowModel)>) -> bool {
    forall|i: int| 0 <= i < fs.len() ==> (#[trigger] fs[i]).1.name == fs[i].0
}

/// After registering, every schema and flow is stored under a normalized
/// name, every schema under the normalized form of its name, and every flow
/// under its own name.
pub proof fn lemma_register_names(
    schemas: Seq<(Seq<char>, SchemaModel)>,
    flows: Seq<(Seq<char>, FlowModel)>,
    ds: Seq<DeclarationModel>,
    default_name: Option<Seq<char>>,
)
    requires
        names_normalized(schemas),
        schemas_under_own_name(schemas),
        names_normalized(flows),
        flows_under_own_name(flows),
    ensures
        names_normalized(register_all(schemas, flows, ds, default_name).0),
        schemas_under_own_name(register_all(schemas, flows, ds, default_name).0),
        names_normalized(register_all(schemas, flows, ds, default_name).1),
        flows_under_own_name(register_all(schemas, flows, ds, default_name).1),
{
    lemma_register_as_upserts(schemas, flows, ds, default_name);
    let so = schema_entries(ds);
    let fo = flow_entries(ds, default_name);
    lemma_schema_entries_normalized(ds);
    lemma_flow_entries_named(ds, default_name);
    let ps = |e: (Seq<char>, SchemaModel)| normalized(e.0) == e.0 && e.0 == normalized(e.1.name);
    let pf = |e: (Seq<char>, FlowModel)| normalized(e.0) == e.0 && e.1.name == e.0;
    assert forall|i: int| 0 <= i < schemas.len() implies ps(#[trigger] schemas[i]) by {}
    assert forall|j: int| 0 <= j < so.len() implies ps(#[trigger] so[j]) by {}
    assert forall|i: int| 0 <= i < flows.len() implies pf(#[trigger] flows[i]) by {}
    assert forall|j: int| 0 <= j < fo.len() implies pf(#[trigger] fo[j]) by {}
    lemma_upsert_all_preserves(schemas, so, ps);
    lemma_upsert_all_preserves(flows, fo, pf);
    let s1 = upsert_all(schemas, so);
    let f1 = upsert_all(flows, fo);
    assert forall|i: int| 0 <= i < s1.len() implies normalized(#[trigger] s1[i].0) == s1[i].0 by {
        assert(ps(s1[i]));
    }
    assert forall|i: int| 0 <= i < s1.len() implies (#[trigger] s1[i]).0 == normalized(
        s1[i].1.name,
    ) by {
        assert(ps(s1[i]));
    }
    assert forall|i: int| 0 <= i < f1.len() implies normalized(#[trigger] f1[i].0) == f1[i].0 by {
        assert(pf(f1[i]));
    }
    assert forall|i: int| 0 <= i < f1.len() implies (#[trigger] f1[i]).1.name == f1[i].0 by {
        assert(pf(f1[i]));
    }
}

proof fn lemma_schema_entries_normalized(ds: Seq<DeclarationModel>)
    ensures
        names_normalized(schema_entries(ds)),
        schemas_under_own_name(schema_entries(ds)),
    decreases ds.len(),
{
    if ds.len() > 0 {
        lemma_schema_entries_normalized(ds.drop_last());
        if let DeclarationModel::Schema(sc) = ds.last() {
            lemma_normalized_idempotent(sc.name);
            let r = schema_entries(ds.drop_last());
            let r2 = r.push((normalized(sc.name), sc));
            assert forall|i: int| 0 <= i < r2.len() implies normalized(#[trigger] r2[i].0)
                == r2[i].0 by {
                if i < r.len() {
                    assert(r2[i] == r[i]);
                }
            }
            assert forall|i: int| 0 <= i < r2.len() implies (#[trigger] r2[i]).0 == normalized(
                r2[i].1.name,
            ) by {
                if i < r.len() {
                    assert(r2[i] == r[i]);
                }
            }
        }
    }
}

proof fn lemma_flow_entries_named(ds: Seq<DeclarationModel>, default_name: Option<Seq<char>>)
    ensures
        names_normalized(flow_entries(ds, default_name)),
        flows_under_own_name(flow_entries(ds, default_name)),
    decreases ds.len(),
{
    if ds.len() > 0 {
        lemma_flow_entries_named(ds.drop_last(), default_name);
        if let DeclarationModel::Flow(f) = ds.last() {
            let e = flow_entry(f, default_name);
            let base = if f.name == "implicit_flow"@ && default_name is Some {
                default_name->0
            } else {
                f.name
            };
            lemma_normalized_idempotent(base);
            let r = flow_entries(ds.drop_last(), default_name);
            let r2 = r.push(e);
            assert forall|i: int| 0 <= i < r2.len() implies normalized(#[trigger] r2[i].0)
                == r2[i].0 by {
                if i < r.len() {
                    assert(r2[i] == r[i]);
                }
            }
            assert forall|i: int| 0 <= i < r2.len() implies (#[trigger] r2[i]).1.name == r2[i].0 by {
                if i < r.len() {
                    assert(r2[i] == r[i]);
                }
            }
        }
    }
}

} // verus!
