//! The derives: what they make of the declaration of an item.
//!
//! `AlkabiMessage` makes a contract's message enum dispatch, decode its calldata and
//! export its ABI; `AlkabiType` describes a borsh struct or enum as a schema tree.
//! Both are functions from what was declared to the Rust source of an impl.
use vstd::prelude::*;

pub mod abitype;
pub mod decl;
pub mod laws;
pub mod message;
pub mod variant;

pub use decl::{FieldsDecl, ItemBody, ItemDecl, ReturnsSpec, TypeDecl, VariantAttr, VariantDecl};
pub use variant::{attr_kind, parse_variant, AttrKind, VariantError, VariantFields, VariantInfo};

verus! {

/// The source that describes a type from elsewhere.
pub open spec fn reference_text(ty: Seq<char>) -> Seq<char> {
    "<"@ + ty + " as ::alkabi::AlkabiType>::reference()"@
}

/// The source that makes one field of a schema.
pub open spec fn field_text(name: Seq<char>, schema: Seq<char>) -> Seq<char> {
    "(\""@ + name + "\".to_string(), "@ + schema + "), "@
}

/// The source that makes the first `n` fields of a schema.
pub open spec fn fields_text(fields: Seq<(Seq<char>, decl::TypeModel)>, n: nat) -> Seq<char>
    decreases n,
{
    if n == 0 || n > fields.len() {
        Seq::empty()
    } else {
        fields_text(fields, (n - 1) as nat) + field_text(fields[n - 1].0, reference_text(fields[n - 1].1.text))
    }
}

/// The source that makes a struct schema of fields.
pub open spec fn struct_text(fields: Seq<char>) -> Seq<char> {
    "::alkabi::schema::Schema::Struct(::std::vec!["@ + fields + "])"@
}

/// The source that registers a type.
pub open spec fn collect_text(ty: Seq<char>, reg: Seq<char>) -> Seq<char> {
    "<"@ + ty + " as ::alkabi::AlkabiType>::collect("@ + reg + "); "@
}

pub(crate) fn push_reference(out: &mut String, ty: &str)
    ensures
        final(out)@ == old(out)@ + reference_text(ty@),
{
    out.append("<");
    out.append(ty);
    out.append(" as ::alkabi::AlkabiType>::reference()");
    assert(out@ =~= old(out)@ + reference_text(ty@));
}

pub(crate) fn push_field(out: &mut String, name: &str, schema: &str)
    ensures
        final(out)@ == old(out)@ + field_text(name@, schema@),
{
    out.append("(\"");
    out.append(name);
    out.append("\".to_string(), ");
    out.append(schema);
    out.append("), ");
    assert(out@ =~= old(out)@ + field_text(name@, schema@));
}

pub(crate) fn push_collect(out: &mut String, ty: &str, reg: &str)
    ensures
        final(out)@ == old(out)@ + collect_text(ty@, reg@),
{
    out.append("<");
    out.append(ty);
    out.append(" as ::alkabi::AlkabiType>::collect(");
    out.append(reg);
    out.append("); ");
    assert(out@ =~= old(out)@ + collect_text(ty@, reg@));
}

pub(crate) fn reference_of(ty: &str) -> (r: String)
    ensures
        r@ == reference_text(ty@),
{
    let mut out = String::new();
    push_reference(&mut out, ty);
    assert(out@ =~= reference_text(ty@));
    out
}

pub(crate) fn fields_of(fields: &Vec<(String, TypeDecl)>) -> (r: String)
    ensures
        r@ == fields_text(decl::field_models(fields@), fields@.len()),
{
    let ghost ms = decl::field_models(fields@);
    let mut out = String::new();
    let n: usize = fields.len();
    for i in 0..n
        invariant
            n == fields@.len(),
            ms == decl::field_models(fields@),
            out@ == fields_text(ms, i as nat),
    {
        assert(ms[i as int] == (fields@[i as int].0@, fields@[i as int].1.model()));
        let reference = reference_of(fields[i].1.text.as_str());
        push_field(&mut out, fields[i].0.as_str(), reference.as_str());
    }
    out
}

pub(crate) fn struct_of(fields: &str) -> (r: String)
    ensures
        r@ == struct_text(fields@),
{
    let mut out = String::new();
    out.append("::alkabi::schema::Schema::Struct(::std::vec![");
    out.append(fields);
    out.append("])");
    assert(out@ =~= struct_text(fields@));
    out
}

} // verus!
