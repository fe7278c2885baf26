//! How schemas, methods and documents are written: laws over all of them.
use vstd::prelude::*;
use crate::abi;
use crate::abi::{AbiIo, AbiMethod, DocumentModel, IoMode, MethodKind};
use crate::json::JsonTree;
use crate::plan;
use crate::schema;
use crate::schema::{Schema, SchemaTree};
use crate::text;

verus! {

/// An object with one field.
pub open spec fn field(name: Seq<char>, value: JsonTree) -> JsonTree {
    JsonTree::Object(seq![(name, value)])
}

/// Named schemas, as the fields of an object.
pub open spec fn described(fields: Seq<(String, Schema)>) -> Seq<(Seq<char>, JsonTree)> {
    Seq::new(fields.len(), |i: int| (fields[i].0@, schema::schema_json(fields[i].1.tree())))
}

/// Named schemas, each as a struct of one field.
pub open spec fn listed(variants: Seq<(String, Schema)>) -> Seq<JsonTree> {
    Seq::new(
        variants.len(),
        |i: int| field("struct"@, field(variants[i].0@, schema::schema_json(variants[i].1.tree()))),
    )
}

/// How each schema is written: a primitive by its name; a struct by its fields, in order;
/// an enum by a list of structs, one for each variant; an option by what it may hold; a
/// list by the type of its items, with their number where that is fixed; a reference by
/// the name it refers to.
pub proof fn lemma_schema(name: &'static str, fields: Vec<(String, Schema)>, s: Schema, n: usize, target: String)
    ensures
        schema::schema_json(Schema::Primitive(name).tree()) == JsonTree::String(name@),
        schema::schema_json(Schema::Struct(fields).tree()) == field("struct"@, JsonTree::Object(described(fields@))),
        schema::schema_json(Schema::Enum(fields).tree()) == field("enum"@, JsonTree::Array(listed(fields@))),
        schema::schema_json(Schema::Option(Box::new(s)).tree()) == field("option"@, schema::schema_json(s.tree())),
        schema::schema_json(Schema::Vec(Box::new(s)).tree()) == field("array"@, field("type"@, schema::schema_json(s.tree()))),
        schema::schema_json(Schema::Array(Box::new(s), n).tree()) == field(
            "array"@,
            JsonTree::Object(seq![("type"@, schema::schema_json(s.tree())), ("len"@, JsonTree::Number(text::decimal(n as int)))]),
        ),
        schema::schema_json(Schema::Ref(target).tree()) == field("$ref"@, JsonTree::String(target@)),
{
    reveal_with_fuel(schema::schema_json, 2);
    reveal_with_fuel(Schema::tree, 2);
    schema::lemma_struct_tree(fields);
    schema::lemma_enum_tree(fields);
    assert(schema::schema_json(Schema::Struct(fields).tree())->Object_0[0].1->Object_0 =~= described(fields@));
    assert(schema::schema_json(Schema::Enum(fields).tree())->Object_0[0].1->Array_0 =~= listed(fields@));
}

/// A kind and a mode are written by their names.
pub proof fn lemma_names()
    ensures
        abi::kind_name(MethodKind::View) == "view"@,
        abi::kind_name(MethodKind::Execute) == "execute"@,
        abi::mode_name(IoMode::Legacy) == "legacy"@,
        abi::mode_name(IoMode::Borsh) == "borsh"@,
        abi::mode_name(IoMode::Raw) == "raw"@,
{
}

/// What an input, witness or output is written as.
pub open spec fn written_io(mode: Seq<char>, s: SchemaTree) -> JsonTree {
    JsonTree::Object(seq![("mode"@, JsonTree::String(mode)), ("schema"@, schema::schema_json(s))])
}

/// The field of an input, witness or output, if there is one.
pub open spec fn optional(name: Seq<char>, io: Option<AbiIo>) -> Seq<(Seq<char>, JsonTree)> {
    match io {
        None => seq![],
        Some(io) => seq![
            (
                name,
                written_io(
                    match io.mode {
                        IoMode::Legacy => "legacy"@,
                        IoMode::Borsh => "borsh"@,
                        IoMode::Raw => "raw"@,
                    },
                    io.schema.tree(),
                ),
            ),
        ],
    }
}

/// A method is written with its name, its opcode as a bare number, its kind, and those of
/// input, witness, output and plan that it has, in that order.
pub proof fn lemma_method(m: AbiMethod)
    ensures
        abi::method_fields(m.model()) == seq![
            ("name"@, JsonTree::String(m.name@)),
            ("opcode"@, JsonTree::Number(text::decimal(m.opcode as int))),
            ("kind"@, JsonTree::String(if m.kind is View { "view"@ } else { "execute"@ })),
        ] + optional("input"@, m.input) + optional("witness"@, m.witness) + optional("output"@, m.output) + match m.plan {
            None => seq![],
            Some(p) => seq![("plan"@, plan::json::plan_json(p.expr.term(), p.trials))],
        },
{
    assert(abi::io_field("input"@, abi::opt_io(m.input)) =~= optional("input"@, m.input));
    assert(abi::io_field("witness"@, abi::opt_io(m.witness)) =~= optional("witness"@, m.witness));
    assert(abi::io_field("output"@, abi::opt_io(m.output)) =~= optional("output"@, m.output));
}

/// A document is written with the version of the format, the contract's name, its types in
/// order and its methods in order.
pub proof fn lemma_document(d: DocumentModel, i: int)
    ensures
        abi::document_json(d) matches JsonTree::Object(fields) && {
            &&& fields.len() == 4
            &&& fields[0] == ("alkabi"@, JsonTree::Number(text::decimal(1)))
            &&& fields[1] == ("contract"@, JsonTree::String(d.contract))
            &&& fields[2].0 == "types"@ && (fields[2].1 matches JsonTree::Object(types) && types.len() == d.types.len() && (0 <= i
                < d.types.len() ==> types[i] == (d.types[i].0, schema::schema_json(d.types[i].1))))
            &&& fields[3].0 == "methods"@ && (fields[3].1 matches JsonTree::Array(methods) && methods.len() == d.methods.len() && (0 <= i
                < d.methods.len() ==> methods[i] == JsonTree::Object(abi::method_fields(d.methods[i]))))
        },
{
}

/// A module that exports a document names it after the contract, holds the document as a
/// constant, and exports it by default.
pub proof fn lemma_ts(contract: Seq<char>, pretty: Seq<char>)
    ensures
        ({
            let head = "// Generated by alkabi — do not edit.\nexport const "@ + contract + "Abi = "@;
            let s = abi::ts_text(contract, pretty);
            &&& head.is_prefix_of(s)
            &&& s.subrange(head.len() as int, head.len() as int + pretty.len()) == pretty
            &&& s.skip(head.len() as int + pretty.len()) == " as const;\n\nexport default "@ + contract + "Abi;\n"@
        }),
{
    let head = "// Generated by alkabi — do not edit.\nexport const "@ + contract + "Abi = "@;
    let s = abi::ts_text(contract, pretty);
    let tail = " as const;\n\nexport default "@ + contract + "Abi;\n"@;
    assert(s =~= head + pretty + tail);
    assert(s.subrange(head.len() as int, head.len() as int + pretty.len()) =~= pretty);
    assert(s.skip(head.len() as int + pretty.len()) =~= tail);
}

} // verus!
