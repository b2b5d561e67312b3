//! The syntax tree shared by the three front ends, and its mathematical model.

use vstd::prelude::*;

verus! {

/// A parsed source file.
#[derive(Debug)]
pub struct Program {
    pub declarations: Vec<Declaration>,
}

/// A top-level declaration.
#[derive(Debug)]
pub enum Declaration {
    Schema(Schema),
    Flow(Flow),
    Import(String),
    Enum(EnumDecl),
}

/// A record type declaration.
#[derive(Debug)]
pub struct Schema {
    pub name: String,
    pub fields: Vec<Field>,
}

/// An enumeration type declaration.
#[derive(Debug)]
pub struct EnumDecl {
    pub name: String,
    pub variants: Vec<Variant>,
}

/// A variant of an enumeration: a bare name, a name with positional types,
/// or a name with named fields.
#[derive(Debug)]
pub enum Variant {
    Unit(String),
    Tuple(String, Vec<Type>),
    Struct(String, Vec<Field>),
}

/// A named, typed member of a schema.
#[derive(Debug)]
pub struct Field {
    pub name: String,
    pub ty: Type,
}

/// A unit of logic: a signature and its implementation.
#[derive(Debug)]
pub struct Flow {
    pub name: String,
    pub params: Vec<Param>,
    pub return_ty: Option<Type>,
    pub implementation: Implementation,
}

/// A flow parameter, optionally typed.
#[derive(Debug)]
pub struct Param {
    pub name: String,
    pub ty: Option<Type>,
}

/// How a flow is implemented.
#[derive(Debug)]
pub enum Implementation {
    /// Implementation in a separate file.
    Linked(String),
    /// Intent lines, one per entry.
    Inline(Vec<String>),
    Empty,
}

/// A type expression.
#[derive(Debug, PartialEq)]
pub enum Type {
    I32,
    F32,
    Bool,
    Str,
    Void,
    Custom(String),
    Stream(Box<Type>),
    List(Box<Type>),
    Option(Box<Type>),
}

/// Model of [`Type`], with text as character sequences.
pub enum TypeModel {
    I32,
    F32,
    Bool,
    Str,
    Void,
    Custom(Seq<char>),
    Stream(Box<TypeModel>),
    List(Box<TypeModel>),
    Optional(Box<TypeModel>),
}

/// Model of [`Param`].
pub struct ParamModel {
    pub name: Seq<char>,
    pub ty: Option<TypeModel>,
}

/// Model of [`Field`].
pub struct FieldModel {
    pub name: Seq<char>,
    pub ty: TypeModel,
}

/// Model of [`Implementation`].
pub enum ImplementationModel {
    Linked(Seq<char>),
    Inline(Seq<Seq<char>>),
    Empty,
}

/// Model of [`Flow`].
pub struct FlowModel {
    pub name: Seq<char>,
    pub params: Seq<ParamModel>,
    pub return_ty: Option<TypeModel>,
    pub implementation: ImplementationModel,
}

/// Model of [`Schema`].
pub struct SchemaModel {
    pub name: Seq<char>,
    pub fields: Seq<FieldModel>,
}

/// Model of [`Variant`].
pub enum VariantModel {
    Unit(Seq<char>),
    Tuple(Seq<char>, Seq<TypeModel>),
    Struct(Seq<char>, Seq<FieldModel>),
}

/// Model of [`EnumDecl`].
pub struct EnumModel {
    pub name: Seq<char>,
    pub variants: Seq<VariantModel>,
}

/// Model of [`Declaration`].
pub enum DeclarationModel {
    Schema(SchemaModel),
    Flow(FlowModel),
    Import(Seq<char>),
    Enum(EnumModel),
}

/// Model of [`Program`].
pub struct ProgramModel {
    pub declarations: Seq<DeclarationModel>,
}

pub open spec fn type_model(t: Type) -> TypeModel
    decreases t,
{
    match t {
        Type::I32 => TypeModel::I32,
        Type::F32 => TypeModel::F32,
        Type::Bool => TypeModel::Bool,
        Type::Str => TypeModel::Str,
        Type::Void => TypeModel::Void,
        Type::Custom(s) => TypeModel::Custom(s@),
        Type::Stream(b) => TypeModel::Stream(Box::new(type_model(*b))),
        Type::List(b) => TypeModel::List(Box::new(type_model(*b))),
        Type::Option(b) => TypeModel::Optional(Box::new(type_model(*b))),
    }
}

pub open spec fn opt_type_model(t: Option<Type>) -> Option<TypeModel> {
    match t {
        Some(t) => Some(type_model(t)),
        None => None,
    }
}

pub open spec fn lines_model(v: Seq<String>) -> Seq<Seq<char>> {
    v.map_values(|s: String| s@)
}

impl View for Type {
    type V = TypeModel;

    open spec fn view(&self) -> TypeModel {
        type_model(*self)
    }
}

impl View for Param {
    type V = ParamModel;

    open spec fn view(&self) -> ParamModel {
        ParamModel { name: self.name@, ty: opt_type_model(self.ty) }
    }
}

impl View for Field {
    type V = FieldModel;

    open spec fn view(&self) -> FieldModel {
        FieldModel { name: self.name@, ty: type_model(self.ty) }
    }
}

impl View for Implementation {
    type V = ImplementationModel;

    open spec fn view(&self) -> ImplementationModel {
        match self {
            Implementation::Linked(s) => ImplementationModel::Linked(s@),
            Implementation::Inline(v) => ImplementationModel::Inline(lines_model(v@)),
            Implementation::Empty => ImplementationModel::Empty,
        }
    }
}

impl View for Flow {
    type V = FlowModel;

    open spec fn view(&self) -> FlowModel {
        FlowModel {
            name: self.name@,
            params: self.params@.map_values(|p: Param| p@),
            return_ty: opt_type_model(self.return_ty),
            implementation: self.implementation@,
        }
    }
}

impl View for Schema {
    type V = SchemaModel;

    open spec fn view(&self) -> SchemaModel {
        SchemaModel { name: self.name@, fields: self.fields@.map_values(|f: Field| f@) }
    }
}

impl View for Variant {
    type V = VariantModel;

    open spec fn view(&self) -> VariantModel {
        match self {
            Variant::Unit(n) => VariantModel::Unit(n@),
            Variant::Tuple(n, ts) => VariantModel::Tuple(n@, ts@.map_values(|t: Type| t@)),
            Variant::Struct(n, fs) => VariantModel::Struct(n@, fs@.map_values(|f: Field| f@)),
        }
    }
}

impl View for EnumDecl {
    type V = EnumModel;

    open spec fn view(&self) -> EnumModel {
        EnumModel { name: self.name@, variants: self.variants@.map_values(|v: Variant| v@) }
    }
}

impl View for Declaration {
    type V = DeclarationModel;

    open spec fn view(&self) -> DeclarationModel {
        match self {
            Declaration::Schema(s) => DeclarationModel::Schema(s@),
            Declaration::Flow(f) => DeclarationModel::Flow(f@),
            Declaration::Import(s) => DeclarationModel::Import(s@),
            Declaration::Enum(e) => DeclarationModel::Enum(e@),
        }
    }
}

impl View for Program {
    type V = ProgramModel;

    open spec fn view(&self) -> ProgramModel {
        ProgramModel { declarations: self.declarations@.map_values(|d: Declaration| d@) }
    }
}

impl Type {
    /// A copy of this type.
    pub fn duplicate(&self) -> (r: Type)
        ensures
            r == *self,
        decreases self,
    {
        match self {
            Type::I32 => Type::I32,
            Type::F32 => Type::F32,
            Type::Bool => Type::Bool,
            Type::Str => Type::Str,
            Type::Void => Type::Void,
            Type::Custom(s) => Type::Custom(s.clone()),
            Type::Stream(b) => Type::Stream(Box::new((&**b).duplicate())),
            Type::List(b) => Type::List(Box::new((&**b).duplicate())),
            Type::Option(b) => Type::Option(Box::new((&**b).duplicate())),
        }
    }
}

/// A copy of an optional type.
pub fn duplicate_opt_type(t: &Option<Type>) -> (r: Option<Type>)
    ensures
        r == *t,
{
    match t {
        Some(t) => Some(t.duplicate()),
        None => None,
    }
}

/// A copy of a list of strings.
pub fn duplicate_strings(v: &Vec<String>) -> (r: Vec<String>)
    ensures
        r@ == v@,
{
    let mut r: Vec<String> = Vec::new();
    let mut i: usize = 0;
    while i < v.len()
        invariant
            i <= v@.len(),
            r@ == v@.take(i as int),
        decreases v@.len() - i,
    {
        r.push(v[i].clone());
        i = i + 1;
        assert(r@ =~= v@.take(i as int));
    }
    assert(r@ =~= v@);
    r
}

impl Param {
    /// A copy of this parameter.
    pub fn duplicate(&self) -> (r: Param)
        ensures
            r == *self,
    {
        Param { name: self.name.clone(), ty: duplicate_opt_type(&self.ty) }
    }
}

impl Field {
    /// A copy of this field.
    pub fn duplicate(&self) -> (r: Field)
        ensures
            r == *self,
    {
        Field { name: self.name.clone(), ty: self.ty.duplicate() }
    }
}

impl Implementation {
    /// A copy of this implementation.
    pub fn duplicate(&self) -> (r: Implementation)
        ensures
            r@ == self@,
    {
        match self {
            Implementation::Linked(s) => Implementation::Linked(s.clone()),
            Implementation::Inline(v) => {
                let c = duplicate_strings(v);
                assert(lines_model(c@) =~= lines_model(v@));
                Implementation::Inline(c)
            },
            Implementation::Empty => Implementation::Empty,
        }
    }
}

/// A copy of a parameter list.
pub fn duplicate_params(v: &Vec<Param>) -> (r: Vec<Param>)
    ensures
        r@ == v@,
{
    let mut r: Vec<Param> = Vec::new();
    let mut i: usize = 0;
    while i < v.len()
        invariant
            i <= v@.len(),
            r@ == v@.take(i as int),
        decreases v@.len() - i,
    {
        r.push(v[i].duplicate());
        i = i + 1;
        assert(r@ =~= v@.take(i as int));
    }
    assert(r@ =~= v@);
    r
}

/// A copy of a field list.
pub fn duplicate_fields(v: &Vec<Field>) -> (r: Vec<Field>)
    ensures
        r@ == v@,
{
    let mut r: Vec<Field> = Vec::new();
    let mut i: usize = 0;
    while i < v.len()
        invariant
            i <= v@.len(),
            r@ == v@.take(i as int),
        decreases v@.len() - i,
    {
        r.push(v[i].duplicate());
        i = i + 1;
        assert(r@ =~= v@.take(i as int));
    }
    assert(r@ =~= v@);
    r
}

impl Flow {
    /// A copy of this flow.
    pub fn duplicate(&self) -> (r: Flow)
        ensures
            r@ == self@,
    {
        let params = duplicate_params(&self.params);
        Flow {
            name: self.name.clone(),
            params,
            return_ty: duplicate_opt_type(&self.return_ty),
            implementation: self.implementation.duplicate(),
        }
    }
}

impl Schema {
    /// A copy of this schema.
    pub fn duplicate(&self) -> (r: Schema)
        ensures
            r@ == self@,
    {
        let fields = duplicate_fields(&self.fields);
        Schema { name: self.name.clone(), fields }
    }
}

} // verus!
