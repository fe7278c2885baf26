//! What a derive sees of an item: its name, its fields with their types, and its
//! attributes.
use vstd::prelude::*;
use crate::text::copy_text;

verus! {

/// A type as it was written, and the last name in its path if it is one.
#[derive(Debug, PartialEq, Eq)]
pub struct TypeDecl {
    pub text: String,
    pub last: Option<String>,
}

/// What a [`TypeDecl`] is.
pub ghost struct TypeModel {
    pub text: Seq<char>,
    pub last: Option<Seq<char>>,
}

/// What an optional text is.
pub open spec fn opt_text(s: Option<String>) -> Option<Seq<char>> {
    match s {
        Some(s) => Some(s@),
        None => None,
    }
}

impl TypeDecl {
    pub open spec fn model(self) -> TypeModel {
        TypeModel { text: self.text@, last: opt_text(self.last) }
    }

    /// The same type, again.
    pub fn copy(&self) -> (r: TypeDecl)
        ensures
            r.model() == self.model(),
    {
        let last = match &self.last {
            Some(s) => Some(copy_text(s.as_str())),
            None => None,
        };
        TypeDecl { text: copy_text(self.text.as_str()), last }
    }
}

/// What an optional type is.
pub open spec fn opt_type(t: Option<TypeDecl>) -> Option<TypeModel> {
    match t {
        Some(t) => Some(t.model()),
        None => None,
    }
}

/// What a list of types is.
pub open spec fn type_models(types: Seq<TypeDecl>) -> Seq<TypeModel> {
    Seq::new(types.len(), |i: int| types[i].model())
}

/// What a list of named types is.
pub open spec fn field_models(fields: Seq<(String, TypeDecl)>) -> Seq<(Seq<char>, TypeModel)> {
    Seq::new(fields.len(), |i: int| (fields[i].0@, fields[i].1.model()))
}

pub fn copy_types(types: &Vec<TypeDecl>) -> (r: Vec<TypeDecl>)
    ensures
        type_models(r@) == type_models(types@),
{
    let mut out: Vec<TypeDecl> = Vec::new();
    let n: usize = types.len();
    for i in 0..n
        invariant
            n == types@.len(),
            out@.len() == i,
            forall|j: int| 0 <= j < i ==> (#[trigger] out@[j]).model() == types@[j].model(),
    {
        out.push(types[i].copy());
    }
    assert(type_models(out@) =~= type_models(types@));
    out
}

pub fn copy_fields(fields: &Vec<(String, TypeDecl)>) -> (r: Vec<(String, TypeDecl)>)
    ensures
        field_models(r@) == field_models(fields@),
{
    let mut out: Vec<(String, TypeDecl)> = Vec::new();
    let n: usize = fields.len();
    for i in 0..n
        invariant
            n == fields@.len(),
            out@.len() == i,
            forall|j: int| 0 <= j < i ==> (#[trigger] out@[j]).0@ == fields@[j].0@ && out@[j].1.model()
                == fields@[j].1.model(),
    {
        let name = copy_text(fields[i].0.as_str());
        let ty = fields[i].1.copy();
        out.push((name, ty));
    }
    assert(field_models(out@) =~= field_models(fields@));
    out
}

/// The fields of a struct or of a variant.
#[derive(Debug, PartialEq, Eq)]
pub enum FieldsDecl {
    Unit,
    Named(Vec<(String, TypeDecl)>),
    Unnamed(Vec<TypeDecl>),
}

/// What a [`FieldsDecl`] is.
pub ghost enum FieldsModel {
    Unit,
    Named(Seq<(Seq<char>, TypeModel)>),
    Unnamed(Seq<TypeModel>),
}

impl FieldsDecl {
    pub open spec fn model(self) -> FieldsModel {
        match self {
            FieldsDecl::Unit => FieldsModel::Unit,
            FieldsDecl::Named(fields) => FieldsModel::Named(field_models(fields@)),
            FieldsDecl::Unnamed(types) => FieldsModel::Unnamed(type_models(types@)),
        }
    }
}

/// What a method is declared to return.
#[derive(Debug, PartialEq, Eq)]
pub enum ReturnsSpec {
    /// `#[returns(borsh(T))]` — response data is borsh-serialized `T`.
    Borsh(TypeDecl),
    /// `#[returns(T)]` / `#[returns(T, U)]` — raw response bytes.
    Raw(Vec<TypeDecl>),
}

/// What a [`ReturnsSpec`] is.
pub ghost enum ReturnsModel {
    Borsh(TypeModel),
    Raw(Seq<TypeModel>),
}

impl ReturnsSpec {
    pub open spec fn model(self) -> ReturnsModel {
        match self {
            ReturnsSpec::Borsh(ty) => ReturnsModel::Borsh(ty.model()),
            ReturnsSpec::Raw(types) => ReturnsModel::Raw(type_models(types@)),
        }
    }

    /// The same, again.
    pub fn copy(&self) -> (r: ReturnsSpec)
        ensures
            r.model() == self.model(),
    {
        match self {
            ReturnsSpec::Borsh(ty) => ReturnsSpec::Borsh(ty.copy()),
            ReturnsSpec::Raw(types) => ReturnsSpec::Raw(copy_types(types)),
        }
    }
}

/// What an optional declaration is.
pub open spec fn opt_returned(r: Option<ReturnsSpec>) -> Option<ReturnsModel> {
    match r {
        Some(r) => Some(r.model()),
        None => None,
    }
}

/// An attribute of a variant.
#[derive(Debug, PartialEq, Eq)]
pub enum VariantAttr {
    Opcode(u128),
    View,
    Borsh,
    Witness(TypeDecl),
    Returns(ReturnsSpec),
    /// One that means nothing here.
    Other,
}

/// What a [`VariantAttr`] is.
pub ghost enum AttrModel {
    Opcode(u128),
    View,
    Borsh,
    Witness(TypeModel),
    Returns(ReturnsModel),
    Other,
}

impl VariantAttr {
    pub open spec fn model(self) -> AttrModel {
        match self {
            VariantAttr::Opcode(n) => AttrModel::Opcode(n),
            VariantAttr::View => AttrModel::View,
            VariantAttr::Borsh => AttrModel::Borsh,
            VariantAttr::Witness(ty) => AttrModel::Witness(ty.model()),
            VariantAttr::Returns(r) => AttrModel::Returns(r.model()),
            VariantAttr::Other => AttrModel::Other,
        }
    }
}

/// What a list of attributes is.
pub open spec fn attr_models(attrs: Seq<VariantAttr>) -> Seq<AttrModel> {
    Seq::new(attrs.len(), |i: int| attrs[i].model())
}

/// A variant of an enum.
#[derive(Debug, PartialEq, Eq)]
pub struct VariantDecl {
    pub ident: String,
    pub attrs: Vec<VariantAttr>,
    pub fields: FieldsDecl,
}

/// What a [`VariantDecl`] is.
pub ghost struct VariantDeclModel {
    pub ident: Seq<char>,
    pub attrs: Seq<AttrModel>,
    pub fields: FieldsModel,
}

impl VariantDecl {
    pub open spec fn model(self) -> VariantDeclModel {
        VariantDeclModel { ident: self.ident@, attrs: attr_models(self.attrs@), fields: self.fields.model() }
    }
}

/// What a list of variants is.
pub open spec fn variant_models(variants: Seq<VariantDecl>) -> Seq<VariantDeclModel> {
    Seq::new(variants.len(), |i: int| variants[i].model())
}

/// What an item consists of.
#[derive(Debug, PartialEq, Eq)]
pub enum ItemBody {
    Struct(FieldsDecl),
    Enum(Vec<VariantDecl>),
    Union,
}

/// What an [`ItemBody`] is.
pub ghost enum BodyModel {
    Struct(FieldsModel),
    Enum(Seq<VariantDeclModel>),
    Union,
}

impl ItemBody {
    pub open spec fn model(self) -> BodyModel {
        match self {
            ItemBody::Struct(fields) => BodyModel::Struct(fields.model()),
            ItemBody::Enum(variants) => BodyModel::Enum(variant_models(variants@)),
            ItemBody::Union => BodyModel::Union,
        }
    }
}

/// A struct, enum or union that a derive stands on.
#[derive(Debug, PartialEq, Eq)]
pub struct ItemDecl {
    pub ident: String,
    pub body: ItemBody,
}

} // verus!
