//! What is written of a document is read back.
use vstd::prelude::*;
use crate::abi;
use crate::abi::{DocumentModel, IoMode, IoModel, MethodKind, MethodModel};
use crate::extract::{document, upstream};
use crate::extract::document::AbiError;
use crate::json;
use crate::json::JsonTree;
use crate::plan::json as plan_text;
use crate::plan::{parse, roundtrip, unambiguous, BytesTerm};
use crate::schema;
use crate::schema::SchemaTree;
use crate::text;
use crate::types;

verus! {

/// Whether the primitives of a schema are known ones.
pub open spec fn described(s: SchemaTree) -> bool
    decreases s,
{
    match s {
        SchemaTree::Primitive(p) => schema::is_primitive(p),
        SchemaTree::Struct(fields) => forall|i: int| 0 <= i < fields.len() ==> described((#[trigger] fields[i]).1),
        SchemaTree::Enum(variants) => forall|i: int| 0 <= i < variants.len() ==> described((#[trigger] variants[i]).1),
        SchemaTree::Option(x) => described(*x),
        SchemaTree::Vec(x) => described(*x),
        SchemaTree::Array(x, n) => described(*x),
        SchemaTree::Ref(name) => true,
    }
}

pub open spec fn described_io(io: Option<IoModel>) -> bool {
    io matches Some(io) ==> described(io.schema)
}

pub open spec fn described_method(m: MethodModel) -> bool {
    described_io(m.input) && described_io(m.witness) && described_io(m.output)
}

/// Whether the primitives of a document are known ones.
pub open spec fn known_document(d: DocumentModel) -> bool {
    &&& forall|i: int| 0 <= i < d.types.len() ==> described((#[trigger] d.types[i]).1)
    &&& forall|i: int| 0 <= i < d.methods.len() ==> described_method(#[trigger] d.methods[i])
}

/// Whether a document can be written and read: its primitives are known ones, and its
/// types in the order of their names, as those of every registry are.
pub open spec fn described_document(d: DocumentModel) -> bool {
    schema::sorted(d.types) && known_document(d)
}

proof fn lemma_schema_names()
    ensures
        "struct"@ != "$ref"@,
        "enum"@ != "$ref"@,
        "enum"@ != "struct"@,
        "option"@ != "$ref"@,
        "option"@ != "struct"@,
        "option"@ != "enum"@,
        "array"@ != "$ref"@,
        "array"@ != "struct"@,
        "array"@ != "enum"@,
        "array"@ != "option"@,
        "type"@ != "len"@,
{
    reveal_strlit("$ref");
    reveal_strlit("struct");
    reveal_strlit("enum");
    reveal_strlit("option");
    reveal_strlit("array");
    reveal_strlit("type");
    reveal_strlit("len");
    assert("struct"@.len() != "$ref"@.len());
    assert("enum"@[0] != "$ref"@[0]);
    assert("enum"@.len() != "struct"@.len());
    assert("option"@.len() != "$ref"@.len());
    assert("option"@[0] != "struct"@[0]);
    assert("option"@.len() != "enum"@.len());
    assert("array"@.len() != "$ref"@.len());
    assert("array"@.len() != "struct"@.len());
    assert("array"@.len() != "enum"@.len());
    assert("array"@.len() != "option"@.len());
    assert("type"@.len() != "len"@.len());
}

proof fn lemma_schema_fields(k: Seq<char>, v: JsonTree)
    ensures
        json::field(json::one(k, v), "$ref"@) == if k == "$ref"@ { Some(v) } else { None },
        json::field(json::one(k, v), "struct"@) == if k == "struct"@ { Some(v) } else { None },
        json::field(json::one(k, v), "enum"@) == if k == "enum"@ { Some(v) } else { None },
        json::field(json::one(k, v), "option"@) == if k == "option"@ { Some(v) } else { None },
        json::field(json::one(k, v), "array"@) == if k == "array"@ { Some(v) } else { None },
{
    roundtrip::lemma_one(k, v, "$ref"@);
    roundtrip::lemma_one(k, v, "struct"@);
    roundtrip::lemma_one(k, v, "enum"@);
    roundtrip::lemma_one(k, v, "option"@);
    roundtrip::lemma_one(k, v, "array"@);
}

/// A schema of known primitives is read back.
pub proof fn lemma_schema(s: SchemaTree)
    requires
        described(s),
    ensures
        document::read_schema(schema::schema_json(s)) == Ok::<SchemaTree, AbiError>(s),
    decreases s, 1nat,
{
    lemma_schema_names();
    let t = schema::schema_json(s);
    match s {
        SchemaTree::Primitive(p) => {}
        SchemaTree::Struct(fields) => {
            let v = t->Object_0[0].1;
            lemma_schema_fields("struct"@, v);
            assert(v->Object_0 =~= schema::named_json(fields));
            lemma_fields(fields, fields.len());
            assert(fields.take(fields.len() as int) =~= fields);
        }
        SchemaTree::Enum(variants) => {
            let v = t->Object_0[0].1;
            lemma_schema_fields("enum"@, v);
            lemma_variants(variants, v->Array_0, variants.len());
            assert(variants.take(variants.len() as int) =~= variants);
        }
        SchemaTree::Option(x) => {
            lemma_schema_fields("option"@, t->Object_0[0].1);
            lemma_schema(*x);
        }
        SchemaTree::Vec(x) => {
            let v = json::one("type"@, schema::schema_json(*x));
            lemma_schema_fields("array"@, v);
            lemma_schema(*x);
            roundtrip::lemma_one("type"@, schema::schema_json(*x), "type"@);
            roundtrip::lemma_one("type"@, schema::schema_json(*x), "len"@);
            assert(document::read_array(v) == Ok::<SchemaTree, AbiError>(s));
        }
        SchemaTree::Array(x, n) => {
            let v = json::two("type"@, schema::schema_json(*x), "len"@, json::num(n as int));
            lemma_schema_fields("array"@, v);
            lemma_schema(*x);
            roundtrip::lemma_two("type"@, schema::schema_json(*x), "len"@, json::num(n as int), "type"@);
            roundtrip::lemma_two("type"@, schema::schema_json(*x), "len"@, json::num(n as int), "len"@);
            roundtrip::lemma_number(n as int);
            assert(document::read_array(v) == Ok::<SchemaTree, AbiError>(s));
        }
        SchemaTree::Ref(name) => {
            lemma_schema_fields("$ref"@, t->Object_0[0].1);
        }
    }
}

proof fn lemma_fields(fields: Seq<(Seq<char>, SchemaTree)>, n: nat)
    requires
        n <= fields.len(),
        forall|i: int| 0 <= i < fields.len() ==> described((#[trigger] fields[i]).1),
    ensures
        document::read_fields(schema::named_json(fields), n) == Ok::<Seq<(Seq<char>, SchemaTree)>, AbiError>(
            fields.take(n as int),
        ),
    decreases fields, n,
{
    if n > 0 {
        lemma_fields(fields, (n - 1) as nat);
        assert(decreases_to!(fields => fields[n - 1]));
        lemma_schema(fields[n - 1].1);
        assert(fields.take(n as int) =~= fields.take(n - 1).push(fields[n - 1]));
    } else {
        assert(fields.take(0) =~= Seq::empty());
    }
}

proof fn lemma_variants(variants: Seq<(Seq<char>, SchemaTree)>, items: Seq<JsonTree>, n: nat)
    requires
        n <= variants.len() == items.len(),
        forall|i: int| 0 <= i < variants.len() ==> described((#[trigger] variants[i]).1),
        forall|i: int| 0 <= i < items.len() ==> #[trigger] items[i] == json::one(
            "struct"@,
            json::one(variants[i].0, schema::schema_json(variants[i].1)),
        ),
    ensures
        document::read_variants(items, n) == Ok::<Seq<(Seq<char>, SchemaTree)>, AbiError>(variants.take(n as int)),
    decreases variants, n,
{
    if n > 0 {
        lemma_variants(variants, items, (n - 1) as nat);
        assert(decreases_to!(variants => variants[n - 1]));
        let (name, s) = variants[n - 1];
        lemma_schema(s);
        roundtrip::lemma_one("struct"@, json::one(name, schema::schema_json(s)), "struct"@);
        assert(items[n - 1] == json::one("struct"@, json::one(name, schema::schema_json(s))));
        assert(document::read_variant(items[n - 1]) == Ok::<(Seq<char>, SchemaTree), AbiError>((name, s)));
        assert(variants.take(n as int) =~= variants.take(n - 1).push(variants[n - 1]));
    } else {
        assert(variants.take(0) =~= Seq::empty());
    }
}

/* ─────────────── methods ─────────────── */

proof fn lemma_find_ahead(a: Seq<(Seq<char>, JsonTree)>, b: Seq<(Seq<char>, JsonTree)>, key: Seq<char>, from: nat)
    requires
        from <= a.len(),
    ensures
        json::find_field(a + b, key, from) == match json::find_field(a, key, from) {
            Some(v) => Some(v),
            None => json::find_field(b, key, 0),
        },
    decreases a.len() - from,
{
    if from < a.len() {
        assert((a + b)[from as int] == a[from as int]);
        lemma_find_ahead(a, b, key, from + 1);
    } else {
        lemma_find_behind(a, b, key, 0);
    }
}

proof fn lemma_find_behind(a: Seq<(Seq<char>, JsonTree)>, b: Seq<(Seq<char>, JsonTree)>, key: Seq<char>, from: nat)
    requires
        from <= b.len(),
    ensures
        json::find_field(a + b, key, a.len() + from) == json::find_field(b, key, from),
    decreases b.len() - from,
{
    if from < b.len() {
        assert((a + b)[(a.len() + from) as int] == b[from as int]);
        lemma_find_behind(a, b, key, from + 1);
    }
}

proof fn lemma_io_field(k: Seq<char>, io: Option<IoModel>, key: Seq<char>)
    ensures
        json::find_field(abi::io_field(k, io), key, 0) == match io {
            Some(io) => if k == key { Some(abi::io_json(io)) } else { None },
            None => None,
        },
{
    reveal_with_fuel(json::find_field, 3);
}

proof fn lemma_plan_field(plan: Option<(BytesTerm, u32)>, key: Seq<char>)
    ensures
        json::find_field(abi::plan_field(plan), key, 0) == match plan {
            Some((e, trials)) => if key == "plan"@ { Some(plan_text::plan_json(e, trials)) } else { None },
            None => None,
        },
{
    reveal_with_fuel(json::find_field, 3);
}

/// The field of a method that has a name.
pub open spec fn method_field(m: MethodModel, key: Seq<char>) -> Option<JsonTree> {
    if key == "name"@ {
        Some(JsonTree::String(m.name))
    } else if key == "opcode"@ {
        Some(json::num(m.opcode as int))
    } else if key == "kind"@ {
        Some(JsonTree::String(abi::kind_name(m.kind)))
    } else if m.input is Some && key == "input"@ {
        Some(abi::io_json(m.input->0))
    } else if m.witness is Some && key == "witness"@ {
        Some(abi::io_json(m.witness->0))
    } else if m.output is Some && key == "output"@ {
        Some(abi::io_json(m.output->0))
    } else if key == "plan"@ {
        match m.plan {
            Some((e, trials)) => Some(plan_text::plan_json(e, trials)),
            None => None,
        }
    } else {
        None
    }
}

proof fn lemma_method_field(m: MethodModel, key: Seq<char>)
    ensures
        json::field(JsonTree::Object(abi::method_fields(m)), key) == method_field(m, key),
{
    let head = seq![
        ("name"@, JsonTree::String(m.name)),
        ("opcode"@, json::num(m.opcode as int)),
        ("kind"@, JsonTree::String(abi::kind_name(m.kind))),
    ];
    let a = abi::io_field("input"@, m.input);
    let b = abi::io_field("witness"@, m.witness);
    let c = abi::io_field("output"@, m.output);
    let d = abi::plan_field(m.plan);
    assert(abi::method_fields(m) == head + a + b + c + d);
    lemma_find_ahead(head + a + b + c, d, key, 0);
    lemma_find_ahead(head + a + b, c, key, 0);
    lemma_find_ahead(head + a, b, key, 0);
    lemma_find_ahead(head, a, key, 0);
    lemma_io_field("input"@, m.input, key);
    lemma_io_field("witness"@, m.witness, key);
    lemma_io_field("output"@, m.output, key);
    lemma_plan_field(m.plan, key);
    assert(json::find_field(head, key, 0) == if key == "name"@ {
        Some(JsonTree::String(m.name))
    } else if key == "opcode"@ {
        Some(json::num(m.opcode as int))
    } else if key == "kind"@ {
        Some(JsonTree::String(abi::kind_name(m.kind)))
    } else {
        None
    }) by {
        reveal_with_fuel(json::find_field, 5);
    }
}

proof fn lemma_method_names()
    ensures
        "opcode"@ != "name"@,
        "kind"@ != "name"@,
        "kind"@ != "opcode"@,
        "input"@ != "name"@,
        "input"@ != "opcode"@,
        "input"@ != "kind"@,
        "witness"@ != "name"@,
        "witness"@ != "opcode"@,
        "witness"@ != "kind"@,
        "witness"@ != "input"@,
        "output"@ != "name"@,
        "output"@ != "opcode"@,
        "output"@ != "kind"@,
        "output"@ != "input"@,
        "output"@ != "witness"@,
        "plan"@ != "name"@,
        "plan"@ != "opcode"@,
        "plan"@ != "kind"@,
        "plan"@ != "input"@,
        "plan"@ != "witness"@,
        "plan"@ != "output"@,
        "mode"@ != "schema"@,
        "view"@ != "execute"@,
        "legacy"@ != "borsh"@,
        "legacy"@ != "raw"@,
        "borsh"@ != "raw"@,
        "contract"@ != "alkabi"@,
        "types"@ != "alkabi"@,
        "types"@ != "contract"@,
        "methods"@ != "alkabi"@,
        "methods"@ != "contract"@,
        "methods"@ != "types"@,
{
    reveal_strlit("name");
    reveal_strlit("opcode");
    reveal_strlit("kind");
    reveal_strlit("input");
    reveal_strlit("witness");
    reveal_strlit("output");
    reveal_strlit("plan");
    reveal_strlit("mode");
    reveal_strlit("schema");
    reveal_strlit("view");
    reveal_strlit("execute");
    reveal_strlit("legacy");
    reveal_strlit("borsh");
    reveal_strlit("raw");
    reveal_strlit("alkabi");
    reveal_strlit("contract");
    reveal_strlit("types");
    reveal_strlit("methods");
    assert("name"@.len() == 4 && "opcode"@.len() == 6 && "kind"@.len() == 4 && "input"@.len() == 5);
    assert("witness"@.len() == 7 && "output"@.len() == 6 && "plan"@.len() == 4);
    assert("kind"@[0] != "name"@[0]);
    assert("output"@[1] != "opcode"@[1]);
    assert("plan"@[0] != "name"@[0]);
    assert("plan"@[0] != "kind"@[0]);
    assert("mode"@.len() != "schema"@.len());
    assert("view"@.len() != "execute"@.len());
    assert("legacy"@.len() == 6 && "borsh"@.len() == 5 && "raw"@.len() == 3);
    assert("alkabi"@.len() == 6 && "contract"@.len() == 8 && "types"@.len() == 5 && "methods"@.len() == 7);
}

proof fn lemma_io(m: MethodModel, key: Seq<char>, io: Option<IoModel>)
    requires
        method_field(m, key) == match io {
            Some(io) => Some(abi::io_json(io)),
            None => None,
        },
        described_io(io),
    ensures
        document::read_io(JsonTree::Object(abi::method_fields(m)), key) == Ok::<Option<IoModel>, AbiError>(io),
{
    lemma_method_field(m, key);
    lemma_method_names();
    if let Some(x) = io {
        let s = schema::schema_json(x.schema);
        let mode = JsonTree::String(abi::mode_name(x.mode));
        lemma_schema(x.schema);
        roundtrip::lemma_two("mode"@, mode, "schema"@, s, "mode"@);
        roundtrip::lemma_two("mode"@, mode, "schema"@, s, "schema"@);
        assert(document::text_field(abi::io_json(x), "mode"@) == Some(abi::mode_name(x.mode)));
        assert(document::named_mode(Some(abi::mode_name(x.mode))) == Ok::<IoMode, AbiError>(x.mode));
    }
}

/// A method of known primitives is read back.
pub proof fn lemma_method(m: MethodModel)
    requires
        described_method(m),
    ensures
        document::read_method(JsonTree::Object(abi::method_fields(m))) == Ok::<MethodModel, AbiError>(m),
{
    let t = JsonTree::Object(abi::method_fields(m));
    lemma_method_names();
    lemma_method_field(m, "name"@);
    lemma_method_field(m, "opcode"@);
    lemma_method_field(m, "kind"@);
    lemma_method_field(m, "plan"@);
    text::lemma_parse_decimal(m.opcode as int, u128::MAX as nat);
    assert(document::read_head(t) == Ok::<(Seq<char>, u128), AbiError>((m.name, m.opcode)));
    assert(document::named_kind(document::text_field(t, "kind"@)) == Ok::<MethodKind, AbiError>(m.kind));
    if let Some((e, trials)) = m.plan {
        roundtrip::lemma_plan(e, trials);
    }
    assert(document::read_method_plan(t) == Ok::<Option<(BytesTerm, u32)>, AbiError>(m.plan));
    lemma_io(m, "input"@, m.input);
    lemma_io(m, "witness"@, m.witness);
    lemma_io(m, "output"@, m.output);
}

proof fn lemma_methods(methods: Seq<MethodModel>, n: nat)
    requires
        n <= methods.len(),
        forall|i: int| 0 <= i < methods.len() ==> described_method(#[trigger] methods[i]),
    ensures
        document::read_methods(abi::methods_json(methods), n) == Ok::<Seq<MethodModel>, AbiError>(methods.take(n as int)),
    decreases n,
{
    if n > 0 {
        lemma_methods(methods, (n - 1) as nat);
        lemma_method(methods[n - 1]);
        assert(methods.take(n as int) =~= methods.take(n - 1).push(methods[n - 1]));
    } else {
        assert(methods.take(0) =~= Seq::empty());
    }
}

proof fn lemma_types(types: Seq<(Seq<char>, SchemaTree)>, n: nat)
    requires
        n <= types.len(),
        schema::sorted(types),
        forall|i: int| 0 <= i < types.len() ==> described((#[trigger] types[i]).1),
    ensures
        document::read_types(schema::named_json(types), n) == Ok::<Seq<(Seq<char>, SchemaTree)>, AbiError>(
            types.take(n as int),
        ),
    decreases n,
{
    if n > 0 {
        lemma_types(types, (n - 1) as nat);
        let (name, s) = types[n - 1];
        lemma_schema(s);
        let before = types.take(n - 1);
        schema::lemma_name_place(before, name, 0);
        let at = schema::name_place(before, name, 0);
        if at < before.len() {
            assert(before[at] == types[at]);
            assert(text::before(types[at].0, types[n - 1].0));
        }
        assert(before.insert(before.len() as int, (name, s)) =~= before.push((name, s)));
        assert(types.take(n as int) =~= before.push((name, s)));
    } else {
        assert(types.take(0) =~= Seq::empty());
    }
}

proof fn lemma_document_field(d: DocumentModel, key: Seq<char>)
    ensures
        json::field(abi::document_json(d), key) == if key == "alkabi"@ {
            Some(json::num(abi::ALKABI_VERSION as int))
        } else if key == "contract"@ {
            Some(JsonTree::String(d.contract))
        } else if key == "types"@ {
            Some(JsonTree::Object(schema::named_json(d.types)))
        } else if key == "methods"@ {
            Some(JsonTree::Array(abi::methods_json(d.methods)))
        } else {
            None
        },
{
    reveal_with_fuel(json::find_field, 6);
}

/// A document is read back, and known by its "alkabi" field.
pub proof fn lemma_document(d: DocumentModel)
    requires
        described_document(d),
    ensures
        document::read_document(abi::document_json(d)) == Ok::<DocumentModel, AbiError>(d),
        json::field(abi::document_json(d), "alkabi"@) is Some,
{
    lemma_method_names();
    lemma_document_field(d, "alkabi"@);
    lemma_document_field(d, "contract"@);
    lemma_document_field(d, "types"@);
    lemma_document_field(d, "methods"@);
    lemma_types(d.types, d.types.len());
    assert(d.types.take(d.types.len() as int) =~= d.types);
    lemma_methods(d.methods, d.methods.len());
    assert(d.methods.take(d.methods.len() as int) =~= d.methods);
}

/* ─────────────── one reading only ─────────────── */

/// Whether names differ, and the first is not the one that serde_json keeps for
/// numbers of its own.
pub open spec fn clear_names(fields: Seq<(Seq<char>, SchemaTree)>) -> bool {
    &&& fields.len() > 0 ==> fields[0].0 != "$serde_json::private::Number"@
    &&& forall|i: int, j: int| 0 <= i < j < fields.len() ==> (#[trigger] fields[i]).0 != (#[trigger] fields[j]).0
}

/// Whether the names in a schema are clear.
pub open spec fn clear(s: SchemaTree) -> bool
    decreases s,
{
    match s {
        SchemaTree::Struct(fields) => {
            &&& clear_names(fields)
            &&& forall|i: int| 0 <= i < fields.len() ==> clear((#[trigger] fields[i]).1)
        }
        SchemaTree::Enum(variants) => forall|i: int| 0 <= i < variants.len() ==> {
            &&& (#[trigger] variants[i]).0 != "$serde_json::private::Number"@
            &&& clear(variants[i].1)
        },
        SchemaTree::Option(x) => clear(*x),
        SchemaTree::Vec(x) => clear(*x),
        SchemaTree::Array(x, n) => clear(*x),
        _ => true,
    }
}

pub open spec fn clear_io(io: Option<IoModel>) -> bool {
    io matches Some(io) ==> clear(io.schema)
}

pub open spec fn clear_method(m: MethodModel) -> bool {
    clear_io(m.input) && clear_io(m.witness) && clear_io(m.output)
}

/// Whether the names in a document are clear.
pub open spec fn clear_document(d: DocumentModel) -> bool {
    &&& clear_names(d.types)
    &&& forall|i: int| 0 <= i < d.types.len() ==> clear((#[trigger] d.types[i]).1)
    &&& forall|i: int| 0 <= i < d.methods.len() ==> clear_method(#[trigger] d.methods[i])
}

proof fn lemma_kept_name()
    ensures
        "struct"@ != "$serde_json::private::Number"@,
        "enum"@ != "$serde_json::private::Number"@,
        "option"@ != "$serde_json::private::Number"@,
        "array"@ != "$serde_json::private::Number"@,
        "$ref"@ != "$serde_json::private::Number"@,
        "type"@ != "$serde_json::private::Number"@,
        "mode"@ != "$serde_json::private::Number"@,
        "name"@ != "$serde_json::private::Number"@,
        "alkabi"@ != "$serde_json::private::Number"@,
{
    reveal_strlit("$serde_json::private::Number");
    reveal_strlit("struct");
    reveal_strlit("enum");
    reveal_strlit("option");
    reveal_strlit("array");
    reveal_strlit("$ref");
    reveal_strlit("type");
    reveal_strlit("mode");
    reveal_strlit("name");
    reveal_strlit("alkabi");
    assert("struct"@.len() != "$serde_json::private::Number"@.len());
    assert("enum"@.len() != "$serde_json::private::Number"@.len());
    assert("option"@.len() != "$serde_json::private::Number"@.len());
    assert("array"@.len() != "$serde_json::private::Number"@.len());
    assert("$ref"@.len() != "$serde_json::private::Number"@.len());
    assert("type"@.len() != "$serde_json::private::Number"@.len());
    assert("mode"@.len() != "$serde_json::private::Number"@.len());
    assert("name"@.len() != "$serde_json::private::Number"@.len());
    assert("alkabi"@.len() != "$serde_json::private::Number"@.len());
}

proof fn lemma_named_free(fields: Seq<(Seq<char>, SchemaTree)>)
    requires
        clear_names(fields),
        forall|i: int| 0 <= i < fields.len() ==> json::unambiguous(schema::schema_json((#[trigger] fields[i]).1)),
    ensures
        json::unambiguous(JsonTree::Object(schema::named_json(fields))),
{
    let out = schema::named_json(fields);
    assert forall|i: int, j: int| 0 <= i < j < out.len() implies (#[trigger] out[i]).0 != (#[trigger] out[j]).0 by {
        assert(fields[i].0 != fields[j].0);
    }
    assert forall|i: int| 0 <= i < out.len() implies json::unambiguous((#[trigger] out[i]).1) by {
        assert(out[i].1 == schema::schema_json(fields[i].1));
    }
}

/// The JSON of a schema with clear names has one reading only.
pub proof fn lemma_schema_free(s: SchemaTree)
    requires
        clear(s),
    ensures
        json::unambiguous(schema::schema_json(s)),
    decreases s,
{
    lemma_kept_name();
    lemma_schema_names();
    let t = schema::schema_json(s);
    match s {
        SchemaTree::Primitive(p) => {}
        SchemaTree::Struct(fields) => {
            assert forall|i: int| 0 <= i < fields.len() implies json::unambiguous(
                schema::schema_json((#[trigger] fields[i]).1),
            ) by {
                lemma_schema_free(fields[i].1);
            }
            lemma_named_free(fields);
            let v = t->Object_0[0].1;
            assert(v->Object_0 =~= schema::named_json(fields));
            unambiguous::lemma_one_free("struct"@, v);
        }
        SchemaTree::Enum(variants) => {
            let v = t->Object_0[0].1;
            let items = v->Array_0;
            assert forall|i: int| 0 <= i < items.len() implies json::unambiguous(#[trigger] items[i]) by {
                let (name, x) = variants[i];
                lemma_schema_free(x);
                unambiguous::lemma_one_free(name, schema::schema_json(x));
                unambiguous::lemma_one_free("struct"@, json::one(name, schema::schema_json(x)));
            }
            assert(json::unambiguous(v));
            unambiguous::lemma_one_free("enum"@, v);
        }
        SchemaTree::Option(x) => {
            lemma_schema_free(*x);
            unambiguous::lemma_one_free("option"@, schema::schema_json(*x));
        }
        SchemaTree::Vec(x) => {
            lemma_schema_free(*x);
            unambiguous::lemma_one_free("type"@, schema::schema_json(*x));
            unambiguous::lemma_one_free("array"@, json::one("type"@, schema::schema_json(*x)));
        }
        SchemaTree::Array(x, n) => {
            lemma_schema_free(*x);
            unambiguous::lemma_num_free(n as int);
            unambiguous::lemma_two_free("type"@, schema::schema_json(*x), "len"@, json::num(n as int));
            unambiguous::lemma_one_free("array"@, json::two("type"@, schema::schema_json(*x), "len"@, json::num(n as int)));
        }
        SchemaTree::Ref(name) => {
            assert(json::unambiguous(JsonTree::String(name)));
            unambiguous::lemma_one_free("$ref"@, JsonTree::String(name));
        }
    }
}

proof fn lemma_io_free(io: IoModel)
    requires
        clear(io.schema),
    ensures
        json::unambiguous(abi::io_json(io)),
{
    lemma_kept_name();
    lemma_method_names();
    lemma_schema_free(io.schema);
    let mode = JsonTree::String(abi::mode_name(io.mode));
    assert(json::unambiguous(mode));
    unambiguous::lemma_two_free("mode"@, mode, "schema"@, schema::schema_json(io.schema));
}

/// Whether an object with these fields has one reading only.
spec fn free_fields(fields: Seq<(Seq<char>, JsonTree)>) -> bool {
    json::unambiguous(JsonTree::Object(fields))
}

proof fn lemma_free_push(fields: Seq<(Seq<char>, JsonTree)>, more: Seq<(Seq<char>, JsonTree)>)
    requires
        free_fields(fields),
        fields.len() > 0,
        more.len() <= 1,
        more.len() == 1 ==> json::unambiguous(more[0].1),
        forall|i: int| 0 <= i < fields.len() && more.len() == 1 ==> (#[trigger] fields[i]).0 != more[0].0,
    ensures
        free_fields(fields + more),
{
    let out = fields + more;
    assert forall|i: int, j: int| 0 <= i < j < out.len() implies (#[trigger] out[i]).0 != (#[trigger] out[j]).0 by {
        assert(out[i] == fields[i]);
        if j < fields.len() {
            assert(out[j] == fields[j]);
        } else {
            assert(out[j] == more[0]);
        }
    }
    assert forall|i: int| 0 <= i < out.len() implies json::unambiguous((#[trigger] out[i]).1) by {
        if i < fields.len() {
            assert(out[i] == fields[i]);
        } else {
            assert(out[i] == more[0]);
        }
    }
    assert(out[0] == fields[0]);
}

/// The JSON of a method with clear names has one reading only.
pub proof fn lemma_method_free(m: MethodModel)
    requires
        clear_method(m),
    ensures
        json::unambiguous(JsonTree::Object(abi::method_fields(m))),
{
    lemma_kept_name();
    lemma_method_names();
    let head = seq![
        ("name"@, JsonTree::String(m.name)),
        ("opcode"@, json::num(m.opcode as int)),
        ("kind"@, JsonTree::String(abi::kind_name(m.kind))),
    ];
    unambiguous::lemma_num_free(m.opcode as int);
    assert(json::unambiguous(JsonTree::String(m.name)));
    assert(json::unambiguous(JsonTree::String(abi::kind_name(m.kind))));
    assert(head.len() == 3);
    assert(free_fields(head));
    let a = abi::io_field("input"@, m.input);
    let b = abi::io_field("witness"@, m.witness);
    let c = abi::io_field("output"@, m.output);
    let d = abi::plan_field(m.plan);
    if let Some(io) = m.input {
        lemma_io_free(io);
    }
    if let Some(io) = m.witness {
        lemma_io_free(io);
    }
    if let Some(io) = m.output {
        lemma_io_free(io);
    }
    if let Some((e, trials)) = m.plan {
        unambiguous::lemma_plan_free(e, trials);
    }
    lemma_free_push(head, a);
    lemma_free_push(head + a, b);
    lemma_free_push(head + a + b, c);
    lemma_free_push(head + a + b + c, d);
    assert(abi::method_fields(m) == head + a + b + c + d);
}

/// The JSON of a document with clear names has one reading only: its text, if it is
/// nested at most 127 deep, is read back as that JSON.
pub proof fn lemma_document_free(d: DocumentModel)
    requires
        clear_document(d),
    ensures
        json::unambiguous(abi::document_json(d)),
        json::depth(abi::document_json(d)) <= 127 ==> json::plain(abi::document_json(d)),
{
    lemma_kept_name();
    lemma_method_names();
    assert forall|i: int| 0 <= i < d.types.len() implies json::unambiguous(
        schema::schema_json((#[trigger] d.types[i]).1),
    ) by {
        lemma_schema_free(d.types[i].1);
    }
    lemma_named_free(d.types);
    let methods = abi::methods_json(d.methods);
    assert forall|i: int| 0 <= i < methods.len() implies json::unambiguous(#[trigger] methods[i]) by {
        lemma_method_free(d.methods[i]);
    }
    assert(json::unambiguous(JsonTree::Array(methods)));
    unambiguous::lemma_num_free(abi::ALKABI_VERSION as int);
    assert(json::unambiguous(JsonTree::String(d.contract)));
    let fields = abi::document_json(d)->Object_0;
    assert(fields.len() == 4);
}

/* ─────────────── normalized documents ─────────────── */

/// Whether definitions are in order, and of known primitives.
pub open spec fn described_types(types: Seq<(Seq<char>, SchemaTree)>) -> bool {
    &&& schema::sorted(types)
    &&& forall|i: int| 0 <= i < types.len() ==> described((#[trigger] types[i]).1)
}

proof fn lemma_alkane_id()
    ensures
        described(types::alkane_id_tree()),
{
    let fields = types::alkane_id_tree()->Struct_0;
    assert forall|i: int| 0 <= i < fields.len() implies described((#[trigger] fields[i]).1) by {
        assert(fields[i].1 == SchemaTree::Primitive("u128"@));
    }
}

proof fn lemma_defined_described(known: Seq<(Seq<char>, SchemaTree)>, name: Seq<char>, s: SchemaTree)
    requires
        described_types(known),
        described(s),
    ensures
        described_types(types::defined_once(known, name, s)),
{
    lemma_redefined_described(known, name, s);
}

proof fn lemma_type_described(ty: Seq<char>, known: Seq<(Seq<char>, SchemaTree)>)
    requires
        described_types(known),
    ensures
        described(upstream::type_schema(ty, known).0),
        described_types(upstream::type_schema(ty, known).1),
    decreases ty.len(),
{
    lemma_alkane_id();
    lemma_defined_described(known, "AlkaneId"@, types::alkane_id_tree());
    if let Some(inner) = upstream::vec_item(ty) {
        text::lemma_trimmed_len(inner);
        lemma_type_described(text::trimmed(inner), known);
    }
}

proof fn lemma_params_described(params: Seq<JsonTree>, known: Seq<(Seq<char>, SchemaTree)>, n: nat)
    requires
        described_types(known),
        n <= params.len(),
    ensures
        upstream::params_fields(params, known, n) matches Ok((fields, t)) ==> {
            &&& described_types(t)
            &&& forall|i: int| 0 <= i < fields.len() ==> described((#[trigger] fields[i]).1)
        },
    decreases n,
{
    if n > 0 {
        lemma_params_described(params, known, (n - 1) as nat);
        if let Ok((fields, t)) = upstream::params_fields(params, known, (n - 1) as nat) {
            if let Some(ty) = document::text_field(params[n - 1], "type"@) {
                lemma_type_described(ty, t);
            }
        }
    }
}

proof fn lemma_parts_described(parts: Seq<Seq<char>>, known: Seq<(Seq<char>, SchemaTree)>, n: nat)
    requires
        described_types(known),
        n <= parts.len(),
    ensures
        described_types(upstream::parts_fields(parts, known, n).1),
        forall|i: int| 0 <= i < upstream::parts_fields(parts, known, n).0.len() ==> described(
            (#[trigger] upstream::parts_fields(parts, known, n).0[i]).1,
        ),
    decreases n,
{
    if n > 0 {
        lemma_parts_described(parts, known, (n - 1) as nat);
        lemma_type_described(text::trimmed(parts[n - 1]), upstream::parts_fields(parts, known, (n - 1) as nat).1);
    }
}

proof fn lemma_upstream_described(t: JsonTree, known: Seq<(Seq<char>, SchemaTree)>)
    requires
        described_types(known),
    ensures
        upstream::upstream_method(t, known) matches Ok((m, u)) ==> described_method(m) && described_types(u),
{
    if let Some(params) = document::list_field(t, "params"@) {
        lemma_params_described(params, known, params.len());
    }
    if let Ok((input, u)) = upstream::upstream_input(t, known) {
        if let Some(returned) = document::text_field(t, "returns"@) {
            let parts = text::split(returned, ',');
            lemma_parts_described(parts, u, parts.len());
            lemma_type_described(text::trimmed(returned), u);
        }
    }
}

proof fn lemma_upstream_methods_described(items: Seq<JsonTree>, n: nat)
    requires
        n <= items.len(),
    ensures
        upstream::upstream_methods(items, n) matches Ok((ms, types)) ==> {
            &&& described_types(types)
            &&& forall|i: int| 0 <= i < ms.len() ==> described_method(#[trigger] ms[i])
        },
    decreases n,
{
    if n > 0 {
        lemma_upstream_methods_described(items, (n - 1) as nat);
        if let Ok((ms, types)) = upstream::upstream_methods(items, (n - 1) as nat) {
            lemma_upstream_described(items[n - 1], types);
        }
    }
}

/// A normalized document is one that can be written and read.
pub proof fn lemma_normalized(t: JsonTree)
    ensures
        upstream::upstream_document(t) matches Ok(d) ==> described_document(d),
{
    if let Some(items) = document::list_field(t, "methods"@) {
        lemma_upstream_methods_described(items, items.len());
    }
}

proof fn lemma_read_schema_described(t: JsonTree)
    ensures
        document::read_schema(t) matches Ok(s) ==> described(s),
    decreases t, 0nat,
{
    parse::lemma_field_smaller(t, "struct"@);
    parse::lemma_field_smaller(t, "enum"@);
    parse::lemma_field_smaller(t, "option"@);
    parse::lemma_field_smaller(t, "array"@);
    if let JsonTree::Object(_) = t {
        if json::field(t, "$ref"@) is Some {
        } else if let Some(v) = json::field(t, "struct"@) {
            if let JsonTree::Object(fields) = v {
                assert(decreases_to!(v => fields));
                lemma_read_fields_described(fields, fields.len());
            }
        } else if let Some(v) = json::field(t, "enum"@) {
            if let JsonTree::Array(items) = v {
                assert(decreases_to!(v => items));
                lemma_read_variants_described(items, items.len());
            }
        } else if let Some(v) = json::field(t, "option"@) {
            lemma_read_schema_described(v);
        } else if let Some(v) = json::field(t, "array"@) {
            parse::lemma_field_smaller(v, "type"@);
            if let Some(ty) = json::field(v, "type"@) {
                lemma_read_schema_described(ty);
            }
            assert(document::read_array(v) matches Ok(s) ==> described(s));
        }
    }
}

proof fn lemma_read_fields_described(fields: Seq<(Seq<char>, JsonTree)>, n: nat)
    requires
        n <= fields.len(),
    ensures
        document::read_fields(fields, n) matches Ok(f) ==> forall|i: int| 0 <= i < f.len() ==> described((#[trigger] f[i]).1),
    decreases fields, n,
{
    if n > 0 {
        lemma_read_fields_described(fields, (n - 1) as nat);
        assert(decreases_to!(fields => fields[n - 1]));
        lemma_read_schema_described(fields[n - 1].1);
    }
}

proof fn lemma_read_variants_described(items: Seq<JsonTree>, n: nat)
    requires
        n <= items.len(),
    ensures
        document::read_variants(items, n) matches Ok(f) ==> forall|i: int| 0 <= i < f.len() ==> described((#[trigger] f[i]).1),
    decreases items, n,
{
    if n > 0 {
        lemma_read_variants_described(items, (n - 1) as nat);
        let t = items[n - 1];
        assert(decreases_to!(items => t));
        parse::lemma_field_smaller(t, "struct"@);
        if let Some(v) = json::field(t, "struct"@) {
            if let JsonTree::Object(wrapper) = v {
                if wrapper.len() == 1 {
                    assert(decreases_to!(v => wrapper));
                    assert(decreases_to!(wrapper => wrapper[0]));
                    lemma_read_schema_described(wrapper[0].1);
                }
            }
        }
        assert(document::read_variant(t) matches Ok((_, s)) ==> described(s));
    }
}

proof fn lemma_read_types_described(fields: Seq<(Seq<char>, JsonTree)>, n: nat)
    requires
        n <= fields.len(),
    ensures
        document::read_types(fields, n) matches Ok(types) ==> described_types(types),
    decreases n,
{
    if n > 0 {
        lemma_read_types_described(fields, (n - 1) as nat);
        lemma_read_schema_described(fields[n - 1].1);
        if let Ok(known) = document::read_types(fields, (n - 1) as nat) {
            if let Ok(s) = document::read_schema(fields[n - 1].1) {
                lemma_redefined_described(known, fields[n - 1].0, s);
            }
        }
    }
}

proof fn lemma_redefined_described(known: Seq<(Seq<char>, SchemaTree)>, name: Seq<char>, s: SchemaTree)
    requires
        described_types(known),
        described(s),
    ensures
        described_types(schema::defined(known, name, s)),
{
    schema::lemma_defined_sorted(known, name, s);
    schema::lemma_name_place(known, name, 0);
    let at = schema::name_place(known, name, 0);
    let after = schema::defined(known, name, s);
    assert forall|i: int| 0 <= i < after.len() implies described((#[trigger] after[i]).1) by {
        if at < known.len() && known[at].0 == name {
            if i != at {
                assert(after[i] == known[i]);
            }
        } else if i < at {
            assert(after[i] == known[i]);
        } else if i > at {
            assert(after[i] == known[i - 1]);
        }
    }
}

proof fn lemma_read_io_described(t: JsonTree, key: Seq<char>)
    ensures
        document::read_io(t, key) matches Ok(io) ==> described_io(io),
{
    if let Some(io) = json::field(t, key) {
        if let Some(s) = json::field(io, "schema"@) {
            lemma_read_schema_described(s);
        }
    }
}

proof fn lemma_read_methods_described(items: Seq<JsonTree>, n: nat)
    requires
        n <= items.len(),
    ensures
        document::read_methods(items, n) matches Ok(ms) ==> forall|i: int| 0 <= i < ms.len() ==> described_method(
            #[trigger] ms[i],
        ),
    decreases n,
{
    if n > 0 {
        lemma_read_methods_described(items, (n - 1) as nat);
        lemma_read_io_described(items[n - 1], "input"@);
        lemma_read_io_described(items[n - 1], "witness"@);
        lemma_read_io_described(items[n - 1], "output"@);
    }
}

/// What comes of reading a document, of either format, can be written and read again:
/// that gives the same document.
pub proof fn lemma_read_again(t: JsonTree)
    ensures
        document::read_document(t) matches Ok(d) ==> {
            &&& described_document(d)
            &&& document::read_document(abi::document_json(d)) == Ok::<DocumentModel, AbiError>(d)
        },
        upstream::upstream_document(t) matches Ok(d) ==> {
            &&& described_document(d)
            &&& document::read_document(abi::document_json(d)) == Ok::<DocumentModel, AbiError>(d)
        },
{
    if let Ok(d) = document::read_document(t) {
        if let Some(JsonTree::Object(fields)) = json::field(t, "types"@) {
            lemma_read_types_described(fields, fields.len());
        }
        if let Some(items) = document::list_field(t, "methods"@) {
            lemma_read_methods_described(items, items.len());
        }
        lemma_document(d);
    }
    lemma_normalized(t);
    if let Ok(d) = upstream::upstream_document(t) {
        lemma_document(d);
    }
}

} // verus!
