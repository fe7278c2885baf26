//! The `AlkabiType` derive: a borsh struct or enum described as a schema tree that
//! serializes to the borsh-js grammar.
use vstd::prelude::*;
use crate::expansion;
use crate::expansion::decl;
use crate::expansion::decl::{BodyModel, FieldsDecl, FieldsModel, ItemBody, ItemDecl, TypeDecl, TypeModel, VariantDecl, VariantDeclModel};
use crate::expansion::{fields_of, push_collect, push_field, reference_of, struct_of};
use crate::text::copy_text;

verus! {

/// Why no impl comes of an item.
#[derive(Debug, Clone, Copy, PartialEq, Eq, Structural)]
pub enum TypeError {
    /// AlkabiType does not support tuple structs.
    TupleStruct,
    /// AlkabiType enum tuple variants must have exactly one field, and this one has not.
    TupleVariant(usize),
    /// AlkabiType cannot be derived for unions.
    Union,
}

/* ─────────────── meaning ─────────────── */

/// The schema of a variant, and the types it uses; nothing for a tuple that has not
/// exactly one field.
pub open spec fn variant_schema(fields: FieldsModel) -> Option<(Seq<char>, Seq<TypeModel>)> {
    match fields {
        FieldsModel::Unit => Some((expansion::struct_text(Seq::empty()), Seq::empty())),
        FieldsModel::Named(named) => Some(
            (expansion::struct_text(expansion::fields_text(named, named.len())), Seq::new(named.len(), |i: int| named[i].1)),
        ),
        FieldsModel::Unnamed(types) => if types.len() == 1 {
            Some((expansion::reference_text(types[0].text), types))
        } else {
            None
        },
    }
}

/// The schemas of the first `n` variants, and the types they use.
pub open spec fn variant_schemas(vs: Seq<VariantDeclModel>, n: nat) -> Result<(Seq<char>, Seq<TypeModel>), TypeError>
    decreases n,
{
    if n == 0 || n > vs.len() {
        Ok((Seq::empty(), Seq::empty()))
    } else {
        match variant_schemas(vs, (n - 1) as nat) {
            Err(e) => Err(e),
            Ok((s, types)) => match variant_schema(vs[n - 1].fields) {
                None => Err(TypeError::TupleVariant((n - 1) as usize)),
                Some((t, more)) => Ok((s + expansion::field_text(vs[n - 1].ident, t), types + more)),
            },
        }
    }
}

/// The source that makes an enum schema of variants.
pub open spec fn enum_text(variants: Seq<char>) -> Seq<char> {
    "::alkabi::schema::Schema::Enum(::std::vec!["@ + variants + "])"@
}

/// The source of an item's schema, and the types it uses.
pub open spec fn item_schema(body: BodyModel) -> Result<(Seq<char>, Seq<TypeModel>), TypeError> {
    match body {
        BodyModel::Struct(fields) => match fields {
            FieldsModel::Unnamed(_) => Err(TypeError::TupleStruct),
            _ => match variant_schema(fields) {
                Some(s) => Ok(s),
                None => Err(TypeError::TupleStruct),
            },
        },
        BodyModel::Enum(vs) => match variant_schemas(vs, vs.len()) {
            Ok((s, types)) => Ok((enum_text(s), types)),
            Err(e) => Err(e),
        },
        BodyModel::Union => Err(TypeError::Union),
    }
}

/// The registration of the first `n` types.
pub open spec fn uses_text(types: Seq<TypeModel>, n: nat) -> Seq<char>
    decreases n,
{
    if n == 0 || n > types.len() {
        Seq::empty()
    } else {
        uses_text(types, (n - 1) as nat) + expansion::collect_text(types[n - 1].text, "reg"@)
    }
}

/// The impl of `AlkabiType` for an item.
pub open spec fn type_text(ident: Seq<char>, schema: Seq<char>, uses: Seq<char>) -> Seq<char> {
    "impl ::alkabi::AlkabiType for "@ + ident
        + " { fn name() -> ::core::option::Option<&'static str> { ::core::option::Option::Some(\""@ + ident
        + "\") } fn schema() -> ::alkabi::schema::Schema { "@ + schema
        + " } fn collect(reg: &mut ::alkabi::schema::TypeRegistry) { if !reg.contains(\""@ + ident
        + "\") { reg.insert(\""@ + ident + "\", <Self as ::alkabi::AlkabiType>::schema()); "@ + uses + "} } }"@
}

/* ─────────────── writing ─────────────── */

fn push_types(out: &mut Vec<TypeDecl>, types: &Vec<TypeDecl>)
    ensures
        decl::type_models(final(out)@) == decl::type_models(old(out)@) + decl::type_models(types@),
{
    let ghost before = decl::type_models(out@);
    let ghost more = decl::type_models(types@);
    let n: usize = types.len();
    assert(decl::type_models(out@) =~= before + more.take(0));
    for i in 0..n
        invariant
            n == types@.len(),
            more == decl::type_models(types@),
            decl::type_models(out@) == before + more.take(i as int),
    {
        let ty = types[i].copy();
        out.push(ty);
        assert(decl::type_models(out@) =~= (before + more.take(i as int)).push(ty.model()));
        assert(more[i as int] == types@[i as int].model());
        assert(before + more.take(i + 1) =~= (before + more.take(i as int)).push(more[i as int]));
    }
    assert(more.take(n as int) =~= more);
}

fn field_types(fields: &Vec<(String, TypeDecl)>) -> (r: Vec<TypeDecl>)
    ensures
        decl::type_models(r@) == Seq::new(fields@.len(), |i: int| decl::field_models(fields@)[i].1),
{
    let mut out: Vec<TypeDecl> = Vec::new();
    let n: usize = fields.len();
    for i in 0..n
        invariant
            n == fields@.len(),
            out@.len() == i,
            forall|j: int| 0 <= j < i ==> (#[trigger] out@[j]).model() == fields@[j].1.model(),
    {
        out.push(fields[i].1.copy());
    }
    assert(decl::type_models(out@) =~= Seq::new(fields@.len(), |i: int| decl::field_models(fields@)[i].1));
    out
}

fn schema_of_fields(fields: &FieldsDecl) -> (r: Option<(String, Vec<TypeDecl>)>)
    ensures
        match (r, variant_schema(fields.model())) {
            (Some((s, types)), Some((t, ms))) => s@ == t && decl::type_models(types@) == ms,
            (None, None) => true,
            _ => false,
        },
{
    match fields {
        FieldsDecl::Unit => {
            let types: Vec<TypeDecl> = Vec::new();
            let none = String::new();
            assert(none@ =~= Seq::empty());
            assert(decl::type_models(types@) =~= Seq::empty());
            Some((struct_of(none.as_str()), types))
        }
        FieldsDecl::Named(named) => {
            let s = fields_of(named);
            let types = field_types(named);
            assert(decl::type_models(types@) =~= variant_schema(fields.model())->Some_0.1);
            Some((struct_of(s.as_str()), types))
        }
        FieldsDecl::Unnamed(types) => {
            if types.len() != 1 {
                return None;
            }
            assert(decl::type_models(types@)[0] == types@[0].model());
            Some((reference_of(types[0].text.as_str()), decl::copy_types(types)))
        }
    }
}

proof fn lemma_schemas_stopped(vs: Seq<VariantDeclModel>, k: nat, n: nat)
    requires
        k <= n <= vs.len(),
        variant_schemas(vs, k) is Err,
    ensures
        variant_schemas(vs, n) == variant_schemas(vs, k),
    decreases n,
{
    if k < n {
        lemma_schemas_stopped(vs, k, (n - 1) as nat);
    }
}

fn schemas_of(vs: &Vec<VariantDecl>) -> (r: Result<(String, Vec<TypeDecl>), TypeError>)
    ensures
        match (r, variant_schemas(decl::variant_models(vs@), vs@.len())) {
            (Ok((s, types)), Ok((t, ms))) => s@ == t && decl::type_models(types@) == ms,
            (Err(x), Err(y)) => x == y,
            _ => false,
        },
{
    let ghost ms = decl::variant_models(vs@);
    let mut out = String::new();
    let mut types: Vec<TypeDecl> = Vec::new();
    let n: usize = vs.len();
    assert(out@ =~= Seq::empty());
    assert(decl::type_models(types@) =~= Seq::empty());
    for i in 0..n
        invariant
            n == vs@.len(),
            ms == decl::variant_models(vs@),
            variant_schemas(ms, i as nat) == Ok::<(Seq<char>, Seq<TypeModel>), TypeError>(
                (out@, decl::type_models(types@)),
            ),
    {
        assert(ms[i as int] == vs@[i as int].model());
        match schema_of_fields(&vs[i].fields) {
            None => {
                proof {
                    lemma_schemas_stopped(ms, (i + 1) as nat, n as nat);
                }
                return Err(TypeError::TupleVariant(i));
            }
            Some((s, more)) => {
                push_field(&mut out, vs[i].ident.as_str(), s.as_str());
                push_types(&mut types, &more);
            }
        }
    }
    Ok((out, types))
}

fn schema_of_item(body: &ItemBody) -> (r: Result<(String, Vec<TypeDecl>), TypeError>)
    ensures
        match (r, item_schema(body.model())) {
            (Ok((s, types)), Ok((t, ms))) => s@ == t && decl::type_models(types@) == ms,
            (Err(x), Err(y)) => x == y,
            _ => false,
        },
{
    match body {
        ItemBody::Struct(fields) => match fields {
            FieldsDecl::Unnamed(_) => Err(TypeError::TupleStruct),
            _ => match schema_of_fields(fields) {
                Some(s) => Ok(s),
                None => Err(TypeError::TupleStruct),
            },
        },
        ItemBody::Enum(vs) => match schemas_of(vs) {
            Err(e) => Err(e),
            Ok((s, types)) => {
                let mut out = copy_text("::alkabi::schema::Schema::Enum(::std::vec![");
                out.append(s.as_str());
                out.append("])");
                Ok((out, types))
            }
        },
        ItemBody::Union => Err(TypeError::Union),
    }
}

fn uses_of(types: &Vec<TypeDecl>) -> (r: String)
    ensures
        r@ == uses_text(decl::type_models(types@), types@.len()),
{
    let ghost ms = decl::type_models(types@);
    let mut out = String::new();
    let n: usize = types.len();
    for i in 0..n
        invariant
            n == types@.len(),
            ms == decl::type_models(types@),
            out@ == uses_text(ms, i as nat),
    {
        assert(ms[i as int] == types@[i as int].model());
        push_collect(&mut out, types[i].text.as_str(), "reg");
    }
    out
}

/// The impl of `AlkabiType` for a struct or enum.
pub fn expand(item: &ItemDecl) -> (r: Result<String, TypeError>)
    ensures
        match (r, item_schema(item.body.model())) {
            (Ok(s), Ok((schema, types))) => s@ == type_text(item.ident@, schema, uses_text(types, types.len())),
            (Err(x), Err(y)) => x == y,
            _ => false,
        },
{
    match schema_of_item(&item.body) {
        Err(e) => Err(e),
        Ok((schema, types)) => {
            let uses = uses_of(&types);
            let mut out = copy_text("impl ::alkabi::AlkabiType for ");
            out.append(item.ident.as_str());
            out.append(" { fn name() -> ::core::option::Option<&'static str> { ::core::option::Option::Some(\"");
            out.append(item.ident.as_str());
            out.append("\") } fn schema() -> ::alkabi::schema::Schema { ");
            out.append(schema.as_str());
            out.append(" } fn collect(reg: &mut ::alkabi::schema::TypeRegistry) { if !reg.contains(\"");
            out.append(item.ident.as_str());
            out.append("\") { reg.insert(\"");
            out.append(item.ident.as_str());
            out.append("\", <Self as ::alkabi::AlkabiType>::schema()); ");
            out.append(uses.as_str());
            out.append("} } }");
            Ok(out)
        }
    }
}

} // verus!
