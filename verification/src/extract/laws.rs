//! What normalizing an upstream document and reading a document promise.
use vstd::prelude::*;
use crate::abi::{DocumentModel, IoMode, MethodKind};
use crate::casing;
use crate::extract;
use crate::extract::document;
use crate::extract::document::AbiError;
use crate::extract::upstream;
use crate::extract::ExtractFault;
use crate::json;
use crate::json::JsonTree;
use crate::schema;
use crate::schema::SchemaTree;
use crate::text;
use crate::types;

verus! {

/* ─────────────── fields of a JSON value ─────────────── */

/// The first field of a name is the one that is read; an object without the name, and
/// any value that is no object, has no such field.
pub proof fn lemma_field(fields: Seq<(Seq<char>, JsonTree)>, key: Seq<char>, i: int)
    ensures
        0 <= i < fields.len() && fields[i].0 == key && (forall|j: int| 0 <= j < i ==> (#[trigger] fields[j]).0 != key)
            ==> json::field(JsonTree::Object(fields), key) == Some(fields[i].1),
        (forall|j: int| 0 <= j < fields.len() ==> (#[trigger] fields[j]).0 != key)
            ==> json::field(JsonTree::Object(fields), key) is None,
{
    if 0 <= i < fields.len() && fields[i].0 == key && (forall|j: int| 0 <= j < i ==> (#[trigger] fields[j]).0 != key) {
        lemma_find_from(fields, key, 0, i);
    }
    if forall|j: int| 0 <= j < fields.len() ==> (#[trigger] fields[j]).0 != key {
        lemma_find_none(fields, key, 0);
    }
}

proof fn lemma_find_from(fields: Seq<(Seq<char>, JsonTree)>, key: Seq<char>, from: nat, i: int)
    requires
        from <= i < fields.len(),
        fields[i].0 == key,
        forall|j: int| 0 <= j < i ==> (#[trigger] fields[j]).0 != key,
    ensures
        json::find_field(fields, key, from) == Some(fields[i].1),
    decreases i - from,
{
    if from < i {
        assert(fields[from as int].0 != key);
        lemma_find_from(fields, key, from + 1, i);
    }
}

proof fn lemma_find_none(fields: Seq<(Seq<char>, JsonTree)>, key: Seq<char>, from: nat)
    requires
        forall|j: int| 0 <= j < fields.len() ==> (#[trigger] fields[j]).0 != key,
    ensures
        json::find_field(fields, key, from) is None,
    decreases fields.len() - from,
{
    if from < fields.len() {
        assert(fields[from as int].0 != key);
        lemma_find_none(fields, key, from + 1);
    }
}

/* ─────────────── the names of types ─────────────── */

/// The schema that an upstream type name stands for.
pub open spec fn named_schema(ty: Seq<char>) -> SchemaTree {
    upstream::type_schema(ty, Seq::empty()).0
}

/// What a name stands for does not depend on the definitions there are, and adds at
/// most that of `AlkaneId` to them: no other name is defined or redefined.
pub proof fn lemma_type_definitions(ty: Seq<char>, types: Seq<(Seq<char>, SchemaTree)>, name: Seq<char>)
    ensures
        upstream::type_schema(ty, types).0 == named_schema(ty),
        name != "AlkaneId"@ ==> schema::definition(upstream::type_schema(ty, types).1, name, 0) == schema::definition(types, name, 0),
        schema::definition(types, name, 0) is Some
            ==> schema::definition(upstream::type_schema(ty, types).1, name, 0) == schema::definition(types, name, 0),
    decreases ty.len(),
{
    if ty == "AlkaneId"@ {
        schema::lemma_defined(types, "AlkaneId"@, types::alkane_id_tree(), name);
    } else if upstream::vec_item(ty) is Some {
        let inner = upstream::vec_item(ty)->Some_0;
        text::lemma_trimmed_len(inner);
        lemma_type_definitions(text::trimmed(inner), types, name);
        lemma_type_definitions(text::trimmed(inner), Seq::empty(), name);
    }
}

/// A primitive is itself, and a `String` the primitive of that name.
pub proof fn lemma_primitive_names(ty: Seq<char>)
    ensures
        (ty == "u8"@ || ty == "u16"@ || ty == "u32"@ || ty == "u64"@ || ty == "u128"@ || ty == "i8"@ || ty == "i16"@
            || ty == "i32"@ || ty == "i64"@ || ty == "i128"@ || ty == "f32"@ || ty == "f64"@ || ty == "bool"@
            || ty == "string"@) <==> named_schema(ty) == SchemaTree::Primitive(ty),
        ty == "String"@ ==> named_schema(ty) == SchemaTree::Primitive("string"@),
        named_schema(ty) is Primitive ==> ty == "String"@ || named_schema(ty) == SchemaTree::Primitive(ty),
        !(named_schema(ty) is Struct || named_schema(ty) is Enum || named_schema(ty) is Option || named_schema(ty) is Array),
{
    reveal_strlit("u8"); reveal_strlit("u16"); reveal_strlit("u32"); reveal_strlit("u64"); reveal_strlit("u128");
    reveal_strlit("i8"); reveal_strlit("i16"); reveal_strlit("i32"); reveal_strlit("i64"); reveal_strlit("i128");
    reveal_strlit("f32"); reveal_strlit("f64"); reveal_strlit("bool"); reveal_strlit("string"); reveal_strlit("String");
    reveal_strlit("AlkaneId"); reveal_strlit("Vec<");
}

/// `Vec<T>` is a list of what `T` is, with or without white space around `T`.
pub proof fn lemma_vec_name(inner: Seq<char>)
    ensures
        named_schema("Vec<"@ + inner + ">"@) == SchemaTree::Vec(Box::new(named_schema(text::trimmed(inner)))),
        !schema::is_primitive("Vec<"@ + inner + ">"@),
{
    reveal_strlit("Vec<");
    reveal_strlit(">");
    lemma_primitive_starts("Vec<"@ + inner + ">"@);
    let ty = "Vec<"@ + inner + ">"@;
    assert(ty.take(4) =~= "Vec<"@);
    assert(ty.subrange(4, ty.len() - 1) =~= inner);
    assert(ty[0] == 'V');
    reveal_strlit("String");
    reveal_strlit("AlkaneId");
    assert("String"@[0] == 'S');
    assert("AlkaneId"@[0] == 'A');
    text::lemma_trimmed_len(inner);
    assert(upstream::vec_item(ty) == Some(inner));
    assert(upstream::type_schema(ty, Seq::empty()).0 == SchemaTree::Vec(Box::new(upstream::type_schema(text::trimmed(inner), Seq::empty()).0)));
}

/// The name of no primitive begins with a capital.
proof fn lemma_primitive_starts(ty: Seq<char>)
    ensures
        schema::is_primitive(ty) ==> ty.len() > 0 && !('A' <= ty[0] && ty[0] <= 'Z'),
{
    reveal_strlit("u8"); reveal_strlit("u16"); reveal_strlit("u32"); reveal_strlit("u64"); reveal_strlit("u128");
    reveal_strlit("i8"); reveal_strlit("i16"); reveal_strlit("i32"); reveal_strlit("i64"); reveal_strlit("i128");
    reveal_strlit("f32"); reveal_strlit("f64"); reveal_strlit("bool"); reveal_strlit("string");
}

/// `AlkaneId` is a reference to its definition, which is there afterwards: a block and a
/// transaction, unless the name was defined before.
pub proof fn lemma_alkane_id_name(types: Seq<(Seq<char>, SchemaTree)>)
    ensures
        named_schema("AlkaneId"@) == SchemaTree::Ref("AlkaneId"@),
        schema::definition(types, "AlkaneId"@, 0) is None ==> schema::definition(
            upstream::type_schema("AlkaneId"@, types).1,
            "AlkaneId"@,
            0,
        ) == Some(
            SchemaTree::Struct(
                seq![("block"@, SchemaTree::Primitive("u128"@)), ("tx"@, SchemaTree::Primitive("u128"@))],
            ),
        ),
{
    reveal_strlit("AlkaneId");
    reveal_strlit("String");
    lemma_primitive_starts("AlkaneId"@);
    schema::lemma_defined(types, "AlkaneId"@, types::alkane_id_tree(), "AlkaneId"@);
}

/// Any other name is a reference to that name.
pub proof fn lemma_other_name(ty: Seq<char>)
    requires
        !(named_schema(ty) is Primitive),
        forall|inner: Seq<char>| ty != #[trigger] ("Vec<"@ + inner) + ">"@,
    ensures
        named_schema(ty) == SchemaTree::Ref(ty),
{
    reveal_strlit("Vec<");
    reveal_strlit(">");
    if upstream::vec_item(ty) is Some {
        let inner = ty.subrange(4, ty.len() - 1);
        assert(ty =~= ("Vec<"@ + inner) + ">"@);
    }
}

/* ─────────────── upstream methods ─────────────── */

/// The `i`th method of a normalized document comes of the `i`th item, whatever stands
/// around it.
proof fn lemma_upstream_item(items: Seq<JsonTree>, n: nat, i: int)
    requires
        n <= items.len(),
        upstream::upstream_methods(items, n) is Ok,
        0 <= i < n,
    ensures
        upstream::upstream_methods(items, n)->Ok_0.0.len() == n,
        upstream::upstream_methods(items, i as nat) is Ok,
        upstream::upstream_method(items[i], upstream::upstream_methods(items, i as nat)->Ok_0.1) matches Ok(r)
            && r.0 == upstream::upstream_methods(items, n)->Ok_0.0[i],
    decreases n,
{
    reveal_with_fuel(upstream::upstream_methods, 2);
    let before = upstream::upstream_methods(items, (n - 1) as nat);
    if n > 1 {
        lemma_upstream_item(items, (n - 1) as nat, if i < n - 1 { i } else { 0 });
    }
    assert(before is Ok);
    assert(before->Ok_0.0.len() == n - 1);
}

/// A document that is normalized keeps its contract's name, and has one method for each
/// item, in order: with the item's opcode, its name in camel case, no witness and no
/// plan; a view exactly if the item's name is `get` or begins with `get_`.
pub proof fn lemma_upstream_methods(t: JsonTree, d: DocumentModel, items: Seq<JsonTree>, i: int)
    requires
        upstream::upstream_document(t) == Ok::<DocumentModel, AbiError>(d),
        json::field(t, "methods"@) == Some(JsonTree::Array(items)),
        0 <= i < items.len(),
    ensures
        json::field(t, "contract"@) == Some(JsonTree::String(d.contract)),
        d.methods.len() == items.len(),
        document::read_opcode(json::field(items[i], "opcode"@)->Some_0) == Ok::<u128, AbiError>(d.methods[i].opcode),
        json::field(items[i], "name"@) matches Some(v) && (v matches JsonTree::String(name) && {
            &&& d.methods[i].name == casing::camel(name, name.len())
            &&& (d.methods[i].kind is View <==> name == "get"@ || exists|rest: Seq<char>| name == #[trigger] ("get_"@ + rest))
        }),
        d.methods[i].witness is None,
        d.methods[i].plan is None,
{
    lemma_upstream_item(items, items.len(), i);
    let name = json::field(items[i], "name"@)->Some_0->String_0;
    reveal_strlit("get_");
    if name.len() >= 4 && name.take(4) == "get_"@ {
        assert(name =~= "get_"@ + name.skip(4));
    }
    if exists|rest: Seq<char>| name == #[trigger] ("get_"@ + rest) {
        let rest = choose|rest: Seq<char>| name == #[trigger] ("get_"@ + rest);
        assert(name.take(4) =~= "get_"@);
    }
}

/// Every output of a normalized method is raw, and there is one exactly if the item has
/// a text under `returns` that is neither `void` nor empty. Every input is legacy, and
/// there is one exactly if the item has parameters.
pub proof fn lemma_upstream_modes(t: JsonTree, d: DocumentModel, items: Seq<JsonTree>, i: int)
    requires
        upstream::upstream_document(t) == Ok::<DocumentModel, AbiError>(d),
        json::field(t, "methods"@) == Some(JsonTree::Array(items)),
        0 <= i < items.len(),
    ensures
        d.methods.len() == items.len(),
        d.methods[i].output matches Some(io) ==> io.mode == IoMode::Raw,
        d.methods[i].input matches Some(io) ==> io.mode == IoMode::Legacy,
        d.methods[i].output is Some <==> (json::field(items[i], "returns"@) matches Some(v) && (v matches JsonTree::String(s)
            && s != "void"@ && s.len() > 0)),
        d.methods[i].input is Some <==> (json::field(items[i], "params"@) matches Some(v) && (v matches JsonTree::Array(ps)
            && ps.len() > 0)),
{
    lemma_upstream_item(items, items.len(), i);
    reveal_strlit("");
    if let Some(JsonTree::String(s)) = json::field(items[i], "returns"@) {
        if s.len() == 0 {
            assert(s =~= ""@);
        }
    }
}

proof fn lemma_params(params: Seq<JsonTree>, types: Seq<(Seq<char>, SchemaTree)>, n: nat, k: int)
    requires
        n <= params.len(),
        0 <= k < n,
        upstream::params_fields(params, types, n) is Ok,
    ensures
        upstream::params_fields(params, types, n)->Ok_0.0.len() == n,
        json::field(params[k], "name"@) == Some(JsonTree::String(upstream::params_fields(params, types, n)->Ok_0.0[k].0)),
        json::field(params[k], "type"@) matches Some(v) && (v matches JsonTree::String(ty)
            && upstream::params_fields(params, types, n)->Ok_0.0[k].1 == named_schema(ty)),
    decreases n,
{
    reveal_with_fuel(upstream::params_fields, 2);
    let before = upstream::params_fields(params, types, (n - 1) as nat);
    if n > 1 {
        lemma_params(params, types, (n - 1) as nat, if k < n - 1 { k } else { 0 });
    }
    assert(before is Ok);
    assert(before->Ok_0.0.len() == n - 1);
    let ty = json::field(params[n - 1], "type"@)->Some_0->String_0;
    lemma_type_definitions(ty, before->Ok_0.1, Seq::empty());
}

/// The input of a normalized method is a struct with one field for each parameter, in
/// order, under the parameter's name and of what the parameter's type stands for.
pub proof fn lemma_upstream_params(t: JsonTree, d: DocumentModel, items: Seq<JsonTree>, i: int, params: Seq<JsonTree>, k: int)
    requires
        upstream::upstream_document(t) == Ok::<DocumentModel, AbiError>(d),
        json::field(t, "methods"@) == Some(JsonTree::Array(items)),
        0 <= i < items.len(),
        json::field(items[i], "params"@) == Some(JsonTree::Array(params)),
        0 <= k < params.len(),
    ensures
        d.methods.len() == items.len(),
        d.methods[i].input matches Some(io) && (io.schema matches SchemaTree::Struct(fields) && {
            &&& fields.len() == params.len()
            &&& json::field(params[k], "name"@) == Some(JsonTree::String(fields[k].0))
            &&& json::field(params[k], "type"@) matches Some(v) && (v matches JsonTree::String(ty) && fields[k].1 == named_schema(ty))
        }),
{
    lemma_upstream_item(items, items.len(), i);
    let types = upstream::upstream_methods(items, i as nat)->Ok_0.1;
    assert(upstream::upstream_input(items[i], types) is Ok);
    assert(upstream::params_fields(params, types, params.len()) is Ok);
    lemma_params(params, types, params.len(), k);
}

proof fn lemma_parts(parts: Seq<Seq<char>>, types: Seq<(Seq<char>, SchemaTree)>, n: nat, k: int)
    requires
        n <= parts.len(),
        0 <= k < n,
    ensures
        upstream::parts_fields(parts, types, n).0.len() == n,
        upstream::parts_fields(parts, types, n).0[k].0 == "_"@ + text::decimal(k),
        upstream::parts_fields(parts, types, n).0[k].1 == named_schema(text::trimmed(parts[k])),
    decreases n,
{
    reveal_with_fuel(upstream::parts_fields, 2);
    let before = upstream::parts_fields(parts, types, (n - 1) as nat);
    if n > 1 {
        lemma_parts(parts, types, (n - 1) as nat, if k < n - 1 { k } else { 0 });
    }
    assert(before.0.len() == n - 1);
    reveal_strlit("_");
    assert("_"@ =~= seq!['_']);
    lemma_type_definitions(text::trimmed(parts[n - 1]), before.1, Seq::empty());
}

/// The output of a normalized method is of what the name under `returns` stands for;
/// several names with commas between them are a struct of the fields `_0`, `_1` and so
/// on, of what each name stands for, in order.
pub proof fn lemma_upstream_returns(t: JsonTree, d: DocumentModel, items: Seq<JsonTree>, i: int, returned: Seq<char>, k: int)
    requires
        upstream::upstream_document(t) == Ok::<DocumentModel, AbiError>(d),
        json::field(t, "methods"@) == Some(JsonTree::Array(items)),
        0 <= i < items.len(),
        json::field(items[i], "returns"@) == Some(JsonTree::String(returned)),
        returned != "void"@,
        returned.len() > 0,
    ensures
        d.methods.len() == items.len(),
        !returned.contains(',') ==> (d.methods[i].output matches Some(io) && io.schema == named_schema(text::trimmed(returned))),
        returned.contains(',') && 0 <= k < text::split(returned, ',').len() ==> (d.methods[i].output matches Some(io) && (
        io.schema matches SchemaTree::Struct(fields) && {
            &&& fields.len() == text::split(returned, ',').len()
            &&& fields[k].0 == "_"@ + text::decimal(k)
            &&& fields[k].1 == named_schema(text::trimmed(text::split(returned, ',')[k]))
        })),
{
    lemma_upstream_item(items, items.len(), i);
    reveal_strlit("");
    let types = upstream::upstream_methods(items, i as nat)->Ok_0.1;
    let after = upstream::upstream_input(items[i], types)->Ok_0.1;
    lemma_type_definitions(text::trimmed(returned), after, Seq::empty());
    let parts = text::split(returned, ',');
    if returned.contains(',') && 0 <= k < parts.len() {
        lemma_parts(parts, after, parts.len(), k);
    }
}

/* ─────────────── which format ─────────────── */

/// A value with a field `alkabi` is read as it stands; any other is normalized. An
/// upstream document fails exactly without a contract's name, without a list of methods
/// or at the first method that cannot be read.
pub proof fn lemma_format(t: JsonTree)
    ensures
        json::field(t, "alkabi"@) is Some ==> (match extract::tree_document(t) {
            Ok(r) => document::read_document(t) == Ok::<DocumentModel, AbiError>(r.0) && !r.1,
            Err(f) => document::read_document(t) matches Err(e) && f == ExtractFault::Abi(e),
        }),
        json::field(t, "alkabi"@) is None ==> (match extract::tree_document(t) {
            Ok(r) => upstream::upstream_document(t) == Ok::<DocumentModel, AbiError>(r.0) && r.1,
            Err(f) => upstream::upstream_document(t) matches Err(e) && f == ExtractFault::Abi(e),
        }),
        !(json::field(t, "contract"@) matches Some(v) && v is String)
            ==> upstream::upstream_document(t) == Err::<DocumentModel, AbiError>(AbiError::Contract),
        json::field(t, "contract"@) matches Some(v) && v is String && !(json::field(t, "methods"@) matches Some(w) && w is Array)
            ==> upstream::upstream_document(t) == Err::<DocumentModel, AbiError>(AbiError::Methods),
{
}

/* ─────────────── reading documents ─────────────── */

/// How a document that is read stands in the JSON value, field by field.
pub proof fn lemma_read_document(t: JsonTree, d: DocumentModel, items: Seq<JsonTree>, i: int)
    requires
        document::read_document(t) == Ok::<DocumentModel, AbiError>(d),
        json::field(t, "methods"@) == Some(JsonTree::Array(items)),
        0 <= i < items.len(),
    ensures
        json::field(t, "contract"@) == Some(JsonTree::String(d.contract)),
        d.methods.len() == items.len(),
        json::field(items[i], "name"@) == Some(JsonTree::String(d.methods[i].name)),
        json::field(items[i], "kind"@) == Some(JsonTree::String("view"@)) <==> d.methods[i].kind == MethodKind::View,
        json::field(items[i], "kind"@) == Some(JsonTree::String("execute"@)) <==> d.methods[i].kind == MethodKind::Execute,
        json::field(items[i], "opcode"@) matches Some(o) && document::read_opcode(o) == Ok::<u128, AbiError>(d.methods[i].opcode),
        d.methods[i].input is Some <==> json::field(items[i], "input"@) is Some,
        d.methods[i].witness is Some <==> json::field(items[i], "witness"@) is Some,
        d.methods[i].output is Some <==> json::field(items[i], "output"@) is Some,
        d.methods[i].plan is Some <==> json::field(items[i], "plan"@) is Some,
        json::field(items[i], "input"@) matches Some(io) ==> document::read_schema(json::field(io, "schema"@)->Some_0)
            == Ok::<SchemaTree, AbiError>(d.methods[i].input->Some_0.schema) && json::field(io, "mode"@) == Some(
            JsonTree::String(mode_text(d.methods[i].input->Some_0.mode)),
        ),
        json::field(items[i], "witness"@) matches Some(io) ==> document::read_schema(json::field(io, "schema"@)->Some_0)
            == Ok::<SchemaTree, AbiError>(d.methods[i].witness->Some_0.schema) && json::field(io, "mode"@) == Some(
            JsonTree::String(mode_text(d.methods[i].witness->Some_0.mode)),
        ),
        json::field(items[i], "output"@) matches Some(io) ==> document::read_schema(json::field(io, "schema"@)->Some_0)
            == Ok::<SchemaTree, AbiError>(d.methods[i].output->Some_0.schema) && json::field(io, "mode"@) == Some(
            JsonTree::String(mode_text(d.methods[i].output->Some_0.mode)),
        ),
{
    lemma_read_item(items, items.len(), i);
    reveal_strlit("view");
    reveal_strlit("execute");
    assert("view"@.len() != "execute"@.len());
}

/// The name of a mode.
pub open spec fn mode_text(m: IoMode) -> Seq<char> {
    match m {
        IoMode::Legacy => "legacy"@,
        IoMode::Borsh => "borsh"@,
        IoMode::Raw => "raw"@,
    }
}

proof fn lemma_read_item(items: Seq<JsonTree>, n: nat, i: int)
    requires
        n <= items.len(),
        document::read_methods(items, n) is Ok,
        0 <= i < n,
    ensures
        document::read_methods(items, n)->Ok_0.len() == n,
        document::read_method(items[i]) matches Ok(m) && m == document::read_methods(items, n)->Ok_0[i],
    decreases n,
{
    reveal_with_fuel(document::read_methods, 2);
    let before = document::read_methods(items, (n - 1) as nat);
    if n > 1 {
        lemma_read_item(items, (n - 1) as nat, if i < n - 1 { i } else { 0 });
    }
    assert(before is Ok);
    assert(before->Ok_0.len() == n - 1);
}

/// An opcode is a number or a text of digits, and as large as 128 bits hold; nothing
/// else is one.
pub proof fn lemma_opcode(t: JsonTree, n: u128)
    ensures
        document::read_opcode(JsonTree::Number(text::decimal(n as int))) == Ok::<u128, AbiError>(n),
        document::read_opcode(JsonTree::String(text::decimal(n as int))) == Ok::<u128, AbiError>(n),
        !(t is Number || t is String) ==> document::read_opcode(t) == Err::<u128, AbiError>(AbiError::OpcodeType),
{
    text::lemma_parse_decimal(n as int, u128::MAX as nat);
}

/// A text that names no primitive, an object of no known form and any other value are no
/// schema, each for a reason of its own.
pub proof fn lemma_no_schema(t: JsonTree, name: Seq<char>)
    ensures
        !schema::is_primitive(name) ==> document::read_schema(JsonTree::String(name)) == Err::<SchemaTree, AbiError>(AbiError::Primitive),
        schema::is_primitive(name) ==> document::read_schema(JsonTree::String(name)) == Ok::<SchemaTree, AbiError>(
            SchemaTree::Primitive(name),
        ),
        document::read_schema(JsonTree::Object(seq![])) == Err::<SchemaTree, AbiError>(AbiError::SchemaObject),
        !(t is String) && !(t is Object) ==> document::read_schema(t) == Err::<SchemaTree, AbiError>(AbiError::SchemaValue),
{
}

} // verus!
