//! The variants of a message enum: what their attributes declare, and which
//! declarations are refused.
use vstd::prelude::*;
use crate::analysis;
use crate::expansion::decl;
use crate::expansion::decl::{copy_fields, AttrModel, FieldsDecl, FieldsModel, ReturnsModel, ReturnsSpec, TypeDecl, TypeModel, VariantAttr, VariantDecl, VariantDeclModel};
use crate::text::{copy_text, same_text};

verus! {

/// The fields of a variant that is accepted.
#[derive(Debug, PartialEq, Eq)]
pub enum VariantFields {
    Unit,
    /// Named fields, of which there may be none: `Foo {}` is not `Foo`.
    Named(Vec<(String, TypeDecl)>),
    /// Single unnamed field (only valid with `#[borsh]`).
    UnnamedSingle(TypeDecl),
}

/// What a [`VariantFields`] is.
pub ghost enum VariantFieldsModel {
    Unit,
    Named(Seq<(Seq<char>, TypeModel)>),
    UnnamedSingle(TypeModel),
}

impl VariantFields {
    pub open spec fn model(self) -> VariantFieldsModel {
        match self {
            VariantFields::Unit => VariantFieldsModel::Unit,
            VariantFields::Named(fields) => VariantFieldsModel::Named(decl::field_models(fields@)),
            VariantFields::UnnamedSingle(ty) => VariantFieldsModel::UnnamedSingle(ty.model()),
        }
    }
}

/// A variant that is accepted.
#[derive(Debug, PartialEq, Eq)]
pub struct VariantInfo {
    pub ident: String,
    pub opcode: u128,
    pub is_view: bool,
    pub is_borsh: bool,
    pub witness: Option<TypeDecl>,
    pub returned: Option<ReturnsSpec>,
    pub fields: VariantFields,
}

/// What a [`VariantInfo`] is.
pub ghost struct VariantModel {
    pub ident: Seq<char>,
    pub opcode: u128,
    pub is_view: bool,
    pub is_borsh: bool,
    pub witness: Option<TypeModel>,
    pub returned: Option<ReturnsModel>,
    pub fields: VariantFieldsModel,
}

impl VariantInfo {
    pub open spec fn model(self) -> VariantModel {
        VariantModel {
            ident: self.ident@,
            opcode: self.opcode,
            is_view: self.is_view,
            is_borsh: self.is_borsh,
            witness: decl::opt_type(self.witness),
            returned: decl::opt_returned(self.returned),
            fields: self.fields.model(),
        }
    }
}

/// Why a variant is refused.
#[derive(Debug, Clone, Copy, PartialEq, Eq, Structural)]
pub enum VariantError {
    /// Missing #[opcode(n)] attribute.
    Opcode,
    /// Tuple variants are only supported with #[borsh].
    Tuple,
    /// #[borsh] variants must have exactly one field, and this tuple has not.
    BorshTuple,
    /// #[borsh] variants must have exactly one field (the params struct).
    BorshField,
    /// Multi-value #[returns(...)] only supports fixed-width integers, which this type
    /// is not.
    MultiValue(usize),
}

/// The attributes of a variant that mean something here, and all others.
#[derive(Debug, Clone, Copy, PartialEq, Eq, Structural)]
pub enum AttrKind {
    Opcode,
    View,
    Borsh,
    Witness,
    Returns,
    Other,
}

/* ─────────────── meaning ─────────────── */

/// Which attribute has a name.
pub open spec fn named_attr(name: Seq<char>) -> AttrKind {
    if name == "opcode"@ {
        AttrKind::Opcode
    } else if name == "view"@ {
        AttrKind::View
    } else if name == "borsh"@ {
        AttrKind::Borsh
    } else if name == "witness"@ {
        AttrKind::Witness
    } else if name == "returns"@ {
        AttrKind::Returns
    } else {
        AttrKind::Other
    }
}

/// What attributes declare.
pub ghost struct Declared {
    pub opcode: Option<u128>,
    pub is_view: bool,
    pub is_borsh: bool,
    pub witness: Option<TypeModel>,
    pub returned: Option<ReturnsModel>,
}

/// What the first `n` attributes declare: of two that say the same thing the last
/// counts.
pub open spec fn declared(attrs: Seq<AttrModel>, n: nat) -> Declared
    decreases n,
{
    if n == 0 || n > attrs.len() {
        Declared { opcode: None, is_view: false, is_borsh: false, witness: None, returned: None }
    } else {
        let before = declared(attrs, (n - 1) as nat);
        match attrs[n - 1] {
            AttrModel::Opcode(x) => Declared { opcode: Some(x), ..before },
            AttrModel::View => Declared { is_view: true, ..before },
            AttrModel::Borsh => Declared { is_borsh: true, ..before },
            AttrModel::Witness(ty) => Declared { witness: Some(ty), ..before },
            AttrModel::Returns(r) => Declared { returned: Some(r), ..before },
            AttrModel::Other => before,
        }
    }
}

/// The fields of a variant, if they are of an accepted form.
pub open spec fn accepted_fields(fields: FieldsModel, is_borsh: bool) -> Result<VariantFieldsModel, VariantError> {
    match fields {
        FieldsModel::Unit => if is_borsh {
            Err(VariantError::BorshField)
        } else {
            Ok(VariantFieldsModel::Unit)
        },
        FieldsModel::Named(named) => if is_borsh && named.len() != 1 {
            Err(VariantError::BorshField)
        } else {
            Ok(VariantFieldsModel::Named(named))
        },
        FieldsModel::Unnamed(types) => if !is_borsh {
            Err(VariantError::Tuple)
        } else if types.len() != 1 {
            Err(VariantError::BorshTuple)
        } else {
            Ok(VariantFieldsModel::UnnamedSingle(types[0]))
        },
    }
}

/// Whether a type is an integer of fixed width, by the last name in its path.
pub open spec fn fixed_width(ty: TypeModel) -> bool {
    match ty.last {
        Some(name) => analysis::is_integer(name),
        None => false,
    }
}

/// The first type, from a place on, that is no integer of fixed width.
pub open spec fn first_other(types: Seq<TypeModel>, from: nat) -> Option<int>
    decreases types.len() - from,
{
    if from >= types.len() {
        None
    } else if !fixed_width(types[from as int]) {
        Some(from as int)
    } else {
        first_other(types, from + 1)
    }
}

/// The type that may not be among several that are returned.
pub open spec fn refused_return(returned: Option<ReturnsModel>) -> Option<int> {
    match returned {
        Some(ReturnsModel::Raw(types)) => if types.len() > 1 { first_other(types, 0) } else { None },
        _ => None,
    }
}

/// The variant that a declaration makes, if it is accepted.
pub open spec fn accepted(d: VariantDeclModel) -> Result<VariantModel, VariantError> {
    let a = declared(d.attrs, d.attrs.len());
    match a.opcode {
        None => Err(VariantError::Opcode),
        Some(opcode) => match accepted_fields(d.fields, a.is_borsh) {
            Err(e) => Err(e),
            Ok(fields) => match refused_return(a.returned) {
                Some(i) => Err(VariantError::MultiValue(i as usize)),
                None => Ok(
                    VariantModel {
                        ident: d.ident,
                        opcode,
                        is_view: a.is_view,
                        is_borsh: a.is_borsh,
                        witness: a.witness,
                        returned: a.returned,
                        fields,
                    },
                ),
            },
        },
    }
}

/// Whether the fields of a variant go with its being borsh: then there is one, and an
/// unnamed field is there only then.
pub open spec fn consistent(v: VariantModel) -> bool {
    match v.fields {
        VariantFieldsModel::Unit => !v.is_borsh,
        VariantFieldsModel::Named(named) => v.is_borsh ==> named.len() == 1,
        VariantFieldsModel::UnnamedSingle(_) => v.is_borsh,
    }
}

/// A variant that is accepted is consistent.
pub proof fn lemma_accepted(d: VariantDeclModel)
    ensures
        accepted(d) matches Ok(v) ==> consistent(v),
{
}

/* ─────────────── acceptance ─────────────── */

/// Whether a type is an integer of fixed width, by the last name in its path.
pub fn is_fixed_width_int(ty: &TypeDecl) -> (r: bool)
    ensures
        r == fixed_width(ty.model()),
{
    match &ty.last {
        Some(name) => {
            let p = name.as_str();
            same_text(p, "u8") || same_text(p, "u16") || same_text(p, "u32") || same_text(p, "u64") || same_text(p, "u128")
                || same_text(p, "i8") || same_text(p, "i16") || same_text(p, "i32") || same_text(p, "i64") || same_text(
                p,
                "i128",
            )
        }
        None => false,
    }
}

fn other_than_int(types: &Vec<TypeDecl>) -> (r: Option<usize>)
    ensures
        match r {
            Some(i) => first_other(decl::type_models(types@), 0) == Some(i as int),
            None => first_other(decl::type_models(types@), 0) is None,
        },
{
    let ghost ms = decl::type_models(types@);
    let n: usize = types.len();
    for i in 0..n
        invariant
            n == types@.len(),
            ms == decl::type_models(types@),
            first_other(ms, 0) == first_other(ms, i as nat),
    {
        assert(ms[i as int] == types@[i as int].model());
        if !is_fixed_width_int(&types[i]) {
            return Some(i);
        }
    }
    None
}

fn accept_fields(fields: &FieldsDecl, is_borsh: bool) -> (r: Result<VariantFields, VariantError>)
    ensures
        match (r, accepted_fields(fields.model(), is_borsh)) {
            (Ok(f), Ok(m)) => f.model() == m,
            (Err(x), Err(y)) => x == y,
            _ => false,
        },
{
    match fields {
        FieldsDecl::Unit => if is_borsh {
            Err(VariantError::BorshField)
        } else {
            Ok(VariantFields::Unit)
        },
        FieldsDecl::Named(named) => if is_borsh && named.len() != 1 {
            Err(VariantError::BorshField)
        } else {
            Ok(VariantFields::Named(copy_fields(named)))
        },
        FieldsDecl::Unnamed(types) => if !is_borsh {
            Err(VariantError::Tuple)
        } else if types.len() != 1 {
            Err(VariantError::BorshTuple)
        } else {
            assert(decl::type_models(types@)[0] == types@[0].model());
            Ok(VariantFields::UnnamedSingle(types[0].copy()))
        },
    }
}

/// Which attribute has a name.
pub fn attr_kind(name: &str) -> (r: AttrKind)
    ensures
        r == named_attr(name@),
{
    if same_text(name, "opcode") {
        AttrKind::Opcode
    } else if same_text(name, "view") {
        AttrKind::View
    } else if same_text(name, "borsh") {
        AttrKind::Borsh
    } else if same_text(name, "witness") {
        AttrKind::Witness
    } else if same_text(name, "returns") {
        AttrKind::Returns
    } else {
        AttrKind::Other
    }
}

/// Reads the declaration of a variant.
pub fn parse_variant(variant: &VariantDecl) -> (r: Result<VariantInfo, VariantError>)
    ensures
        match (r, accepted(variant.model())) {
            (Ok(v), Ok(m)) => v.model() == m && consistent(m),
            (Err(x), Err(y)) => x == y,
            _ => false,
        },
{
    let ghost attrs = decl::attr_models(variant.attrs@);
    let mut opcode: Option<u128> = None;
    let mut is_view = false;
    let mut is_borsh = false;
    let mut witness: Option<TypeDecl> = None;
    let mut returned: Option<ReturnsSpec> = None;
    let n: usize = variant.attrs.len();
    for i in 0..n
        invariant
            n == variant.attrs@.len(),
            attrs == decl::attr_models(variant.attrs@),
            declared(attrs, i as nat) == (Declared {
                opcode,
                is_view,
                is_borsh,
                witness: decl::opt_type(witness),
                returned: decl::opt_returned(returned),
            }),
    {
        assert(attrs[i as int] == variant.attrs@[i as int].model());
        match &variant.attrs[i] {
            VariantAttr::Opcode(x) => {
                opcode = Some(*x);
            }
            VariantAttr::View => {
                is_view = true;
            }
            VariantAttr::Borsh => {
                is_borsh = true;
            }
            VariantAttr::Witness(ty) => {
                witness = Some(ty.copy());
            }
            VariantAttr::Returns(spec) => {
                returned = Some(spec.copy());
            }
            VariantAttr::Other => {}
        }
    }
    let opcode: u128 = match opcode {
        None => {
            return Err(VariantError::Opcode);
        }
        Some(x) => x,
    };
    let fields = match accept_fields(&variant.fields, is_borsh) {
        Err(e) => {
            return Err(e);
        }
        Ok(fields) => fields,
    };
    if let Some(ReturnsSpec::Raw(types)) = &returned {
        if types.len() > 1 {
            if let Some(i) = other_than_int(types) {
                return Err(VariantError::MultiValue(i));
            }
        }
    }
    Ok(VariantInfo { ident: copy_text(variant.ident.as_str()), opcode, is_view, is_borsh, witness, returned, fields })
}

} // verus!
