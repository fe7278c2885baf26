//! Reading alkabi v1 documents.
use vstd::prelude::*;
use crate::abi;
use crate::abi::{AbiDocument, AbiIo, AbiMethod, DocumentModel, IoMode, IoModel, MethodKind, MethodModel};
use crate::json;
use crate::json::{Json, JsonTree};
use crate::plan::parse;
use crate::plan::{parse_plan, BytesTerm, ParseError, Plan};
use crate::schema;
use crate::schema::{Schema, SchemaTree, TypeRegistry};
use crate::text;
use crate::text::{copy_text, read_unsigned, same_text};

verus! {

broadcast use json::group_json_trees;

/// Why a JSON value is no ABI document.
#[derive(Debug, Clone, Copy, PartialEq, Eq, Structural)]
pub enum AbiError {
    /// A document has no "contract" field.
    Contract,
    /// A document has no "methods" array.
    Methods,
    /// A method has no "name".
    MethodName,
    /// A method has no "opcode".
    MethodOpcode,
    /// An opcode does not fit 128 bits.
    Opcode,
    /// An opcode is neither a number nor a string.
    OpcodeType,
    /// A method is neither "view" nor "execute".
    Kind,
    /// A mode is not "legacy", "borsh" or "raw".
    Mode,
    /// An input, witness or output has no "schema".
    IoSchema,
    /// A primitive of no known name.
    Primitive,
    /// A "$ref" is no string.
    Ref,
    /// A "struct" is no object.
    StructFields,
    /// An "enum" is no array.
    EnumVariants,
    /// A variant of an enum has no "struct" object.
    Variant,
    /// A variant of an enum does not have exactly one name.
    VariantNames,
    /// An "array" has no "type".
    ArrayType,
    /// The "len" of an array is no unsigned integer.
    ArrayLen,
    /// An object that is no schema.
    SchemaObject,
    /// A value that is no schema.
    SchemaValue,
    /// A plan that cannot be read.
    Plan(ParseError),
    /// A parameter has no "name".
    ParamName,
    /// A parameter has no "type".
    ParamType,
}

/* ─────────────── meaning ─────────────── */

/// The schema that a JSON value describes.
pub open spec fn read_schema(t: JsonTree) -> Result<SchemaTree, AbiError>
    decreases t, 0nat,
{
    proof {
        parse::lemma_field_smaller(t, "struct"@);
        parse::lemma_field_smaller(t, "enum"@);
        parse::lemma_field_smaller(t, "option"@);
        parse::lemma_field_smaller(t, "array"@);
    }
    match t {
        JsonTree::String(name) => if schema::is_primitive(name) {
            Ok(SchemaTree::Primitive(name))
        } else {
            Err(AbiError::Primitive)
        },
        JsonTree::Object(_) => if let Some(v) = json::field(t, "$ref"@) {
            match json::string(v) {
                Some(name) => Ok(SchemaTree::Ref(name)),
                None => Err(AbiError::Ref),
            }
        } else if let Some(v) = json::field(t, "struct"@) {
            match v {
                JsonTree::Object(fields) => match read_fields(fields, fields.len()) {
                    Ok(f) => Ok(SchemaTree::Struct(f)),
                    Err(e) => Err(e),
                },
                _ => Err(AbiError::StructFields),
            }
        } else if let Some(v) = json::field(t, "enum"@) {
            match v {
                JsonTree::Array(items) => match read_variants(items, items.len()) {
                    Ok(f) => Ok(SchemaTree::Enum(f)),
                    Err(e) => Err(e),
                },
                _ => Err(AbiError::EnumVariants),
            }
        } else if let Some(v) = json::field(t, "option"@) {
            match read_schema(v) {
                Ok(s) => Ok(SchemaTree::Option(Box::new(s))),
                Err(e) => Err(e),
            }
        } else if let Some(v) = json::field(t, "array"@) {
            read_array(v)
        } else {
            Err(AbiError::SchemaObject)
        },
        _ => Err(AbiError::SchemaValue),
    }
}

/// The first `n` fields, as named schemas.
pub open spec fn read_fields(fields: Seq<(Seq<char>, JsonTree)>, n: nat) -> Result<Seq<(Seq<char>, SchemaTree)>, AbiError>
    decreases fields, n,
{
    if n == 0 || n > fields.len() {
        Ok(Seq::empty())
    } else {
        match read_fields(fields, (n - 1) as nat) {
            Err(e) => Err(e),
            Ok(f) => match read_schema(fields[n - 1].1) {
                Err(e) => Err(e),
                Ok(s) => Ok(f.push((fields[n - 1].0, s))),
            },
        }
    }
}

/// The first `n` items, as variants.
pub open spec fn read_variants(items: Seq<JsonTree>, n: nat) -> Result<Seq<(Seq<char>, SchemaTree)>, AbiError>
    decreases items, n,
{
    if n == 0 || n > items.len() {
        Ok(Seq::empty())
    } else {
        match read_variants(items, (n - 1) as nat) {
            Err(e) => Err(e),
            Ok(f) => match read_variant(items[n - 1]) {
                Err(e) => Err(e),
                Ok(v) => Ok(f.push(v)),
            },
        }
    }
}

/// A variant: one name and its schema.
pub open spec fn read_variant(t: JsonTree) -> Result<(Seq<char>, SchemaTree), AbiError>
    decreases t, 1nat,
{
    proof {
        parse::lemma_field_smaller(t, "struct"@);
    }
    match json::field(t, "struct"@) {
        Some(v) => match v {
            JsonTree::Object(wrapper) => if wrapper.len() != 1 {
                Err(AbiError::VariantNames)
            } else {
                match read_schema(wrapper[0].1) {
                    Err(e) => Err(e),
                    Ok(s) => Ok((wrapper[0].0, s)),
                }
            },
            _ => Err(AbiError::Variant),
        },
        None => Err(AbiError::Variant),
    }
}

/// A sequence, of a fixed length where one is given.
pub open spec fn read_array(t: JsonTree) -> Result<SchemaTree, AbiError>
    decreases t, 1nat,
{
    proof {
        parse::lemma_field_smaller(t, "type"@);
    }
    match json::field(t, "type"@) {
        None => Err(AbiError::ArrayType),
        Some(ty) => match read_schema(ty) {
            Err(e) => Err(e),
            Ok(inner) => match json::field(t, "len"@) {
                None => Ok(SchemaTree::Vec(Box::new(inner))),
                Some(l) => match json::number(l) {
                    Some(n) => Ok(SchemaTree::Array(Box::new(inner), n as usize)),
                    None => Err(AbiError::ArrayLen),
                },
            },
        },
    }
}

/// The opcode that a JSON value gives.
pub open spec fn read_opcode(t: JsonTree) -> Result<u128, AbiError> {
    match t {
        JsonTree::Number(s) => match text::parse_unsigned(s, u128::MAX as nat) {
            Some(n) => Ok(n as u128),
            None => Err(AbiError::Opcode),
        },
        JsonTree::String(s) => match text::parse_unsigned(s, u128::MAX as nat) {
            Some(n) => Ok(n as u128),
            None => Err(AbiError::Opcode),
        },
        _ => Err(AbiError::OpcodeType),
    }
}

/// A text field.
pub open spec fn text_field(t: JsonTree, key: Seq<char>) -> Option<Seq<char>> {
    match json::field(t, key) {
        Some(v) => json::string(v),
        None => None,
    }
}

pub open spec fn named_kind(name: Option<Seq<char>>) -> Result<MethodKind, AbiError> {
    if name == Some(abi::kind_name(MethodKind::View)) {
        Ok(MethodKind::View)
    } else if name == Some(abi::kind_name(MethodKind::Execute)) {
        Ok(MethodKind::Execute)
    } else {
        Err(AbiError::Kind)
    }
}

pub open spec fn named_mode(name: Option<Seq<char>>) -> Result<IoMode, AbiError> {
    if name == Some(abi::mode_name(IoMode::Legacy)) {
        Ok(IoMode::Legacy)
    } else if name == Some(abi::mode_name(IoMode::Borsh)) {
        Ok(IoMode::Borsh)
    } else if name == Some(abi::mode_name(IoMode::Raw)) {
        Ok(IoMode::Raw)
    } else {
        Err(AbiError::Mode)
    }
}

/// An input, witness or output: nothing where the field is not there.
pub open spec fn read_io(t: JsonTree, key: Seq<char>) -> Result<Option<IoModel>, AbiError> {
    match json::field(t, key) {
        None => Ok(None),
        Some(io) => match named_mode(text_field(io, "mode"@)) {
            Err(e) => Err(e),
            Ok(mode) => match json::field(io, "schema"@) {
                None => Err(AbiError::IoSchema),
                Some(s) => match read_schema(s) {
                    Err(e) => Err(e),
                    Ok(schema) => Ok(Some(IoModel { mode, schema })),
                },
            },
        },
    }
}

/// The plan of a method: nothing where the field is not there.
pub open spec fn read_method_plan(t: JsonTree) -> Result<Option<(BytesTerm, u32)>, AbiError> {
    match json::field(t, "plan"@) {
        None => Ok(None),
        Some(p) => match parse::read_plan(p) {
            Ok(p) => Ok(Some(p)),
            Err(e) => Err(AbiError::Plan(e)),
        },
    }
}

/// The name and the opcode of a method.
pub open spec fn read_head(t: JsonTree) -> Result<(Seq<char>, u128), AbiError> {
    match text_field(t, "name"@) {
        None => Err(AbiError::MethodName),
        Some(name) => match json::field(t, "opcode"@) {
            None => Err(AbiError::MethodOpcode),
            Some(o) => match read_opcode(o) {
                Err(e) => Err(e),
                Ok(opcode) => Ok((name, opcode)),
            },
        },
    }
}

pub open spec fn read_method(t: JsonTree) -> Result<MethodModel, AbiError> {
    match read_head(t) {
        Err(e) => Err(e),
        Ok((name, opcode)) => match named_kind(text_field(t, "kind"@)) {
            Err(e) => Err(e),
            Ok(kind) => match read_method_plan(t) {
                Err(e) => Err(e),
                Ok(plan) => match read_io(t, "input"@) {
                    Err(e) => Err(e),
                    Ok(input) => match read_io(t, "witness"@) {
                        Err(e) => Err(e),
                        Ok(witness) => match read_io(t, "output"@) {
                            Err(e) => Err(e),
                            Ok(output) => Ok(MethodModel { name, opcode, kind, input, witness, output, plan }),
                        },
                    },
                },
            },
        },
    }
}

/// The first `n` items, as methods.
pub open spec fn read_methods(items: Seq<JsonTree>, n: nat) -> Result<Seq<MethodModel>, AbiError>
    decreases n,
{
    if n == 0 || n > items.len() {
        Ok(Seq::empty())
    } else {
        match read_methods(items, (n - 1) as nat) {
            Err(e) => Err(e),
            Ok(ms) => match read_method(items[n - 1]) {
                Err(e) => Err(e),
                Ok(m) => Ok(ms.push(m)),
            },
        }
    }
}

/// The definitions of the first `n` fields.
pub open spec fn read_types(fields: Seq<(Seq<char>, JsonTree)>, n: nat) -> Result<Seq<(Seq<char>, SchemaTree)>, AbiError>
    decreases n,
{
    if n == 0 || n > fields.len() {
        Ok(Seq::empty())
    } else {
        match read_types(fields, (n - 1) as nat) {
            Err(e) => Err(e),
            Ok(types) => match read_schema(fields[n - 1].1) {
                Err(e) => Err(e),
                Ok(s) => Ok(schema::defined(types, fields[n - 1].0, s)),
            },
        }
    }
}

/// The definitions of a document: none where there is no "types" object.
pub open spec fn read_document_types(t: JsonTree) -> Result<Seq<(Seq<char>, SchemaTree)>, AbiError> {
    match json::field(t, "types"@) {
        Some(v) => match v {
            JsonTree::Object(fields) => read_types(fields, fields.len()),
            _ => Ok(Seq::empty()),
        },
        None => Ok(Seq::empty()),
    }
}

/// The items of an array field.
pub open spec fn list_field(t: JsonTree, key: Seq<char>) -> Option<Seq<JsonTree>> {
    match json::field(t, key) {
        Some(v) => match v {
            JsonTree::Array(items) => Some(items),
            _ => None,
        },
        None => None,
    }
}

/// The document that a JSON value describes.
pub open spec fn read_document(t: JsonTree) -> Result<DocumentModel, AbiError> {
    match text_field(t, "contract"@) {
        None => Err(AbiError::Contract),
        Some(contract) => match read_document_types(t) {
            Err(e) => Err(e),
            Ok(types) => match list_field(t, "methods"@) {
                None => Err(AbiError::Methods),
                Some(items) => match read_methods(items, items.len()) {
                    Err(e) => Err(e),
                    Ok(methods) => Ok(DocumentModel { contract, types, methods }),
                },
            },
        },
    }
}

/* ─────────────── reading ─────────────── */

pub open spec fn schema_agrees(r: Result<Schema, AbiError>, m: Result<SchemaTree, AbiError>) -> bool {
    match (r, m) {
        (Ok(s), Ok(t)) => s.tree() == t,
        (Err(x), Err(y)) => x == y,
        _ => false,
    }
}

pub open spec fn named_agrees(
    r: Result<Vec<(String, Schema)>, AbiError>,
    m: Result<Seq<(Seq<char>, SchemaTree)>, AbiError>,
) -> bool {
    match (r, m) {
        (Ok(f), Ok(t)) => schema::named_trees(f@) == t,
        (Err(x), Err(y)) => x == y,
        _ => false,
    }
}

proof fn lemma_fields_stopped(fields: Seq<(Seq<char>, JsonTree)>, k: nat, n: nat)
    requires
        k <= n <= fields.len(),
        read_fields(fields, k) is Err,
    ensures
        read_fields(fields, n) == read_fields(fields, k),
    decreases n,
{
    if k < n {
        lemma_fields_stopped(fields, k, (n - 1) as nat);
    }
}

proof fn lemma_variants_stopped(items: Seq<JsonTree>, k: nat, n: nat)
    requires
        k <= n <= items.len(),
        read_variants(items, k) is Err,
    ensures
        read_variants(items, n) == read_variants(items, k),
    decreases n,
{
    if k < n {
        lemma_variants_stopped(items, k, (n - 1) as nat);
    }
}

fn parse_fields(fields: &Vec<(String, Json)>) -> (r: Result<Vec<(String, Schema)>, AbiError>)
    ensures
        named_agrees(r, read_fields(json::field_trees(fields@), fields@.len())),
    decreases fields,
{
    let ghost ts = json::field_trees(fields@);
    let mut out: Vec<(String, Schema)> = Vec::new();
    let n: usize = fields.len();
    assert(schema::named_trees(out@) =~= Seq::empty());
    for i in 0..n
        invariant
            n == fields@.len(),
            ts == json::field_trees(fields@),
            read_fields(ts, i as nat) == Ok::<Seq<(Seq<char>, SchemaTree)>, AbiError>(schema::named_trees(out@)),
    {
        assert(ts[i as int] == (fields@[i as int].0@, fields@[i as int].1.tree()));
        let name = copy_text(fields[i].0.as_str());
        match parse_schema(&fields[i].1) {
            Err(e) => {
                proof {
                    lemma_fields_stopped(ts, (i + 1) as nat, n as nat);
                }
                return Err(e);
            }
            Ok(s) => {
                let ghost before = schema::named_trees(out@);
                out.push((name, s));
                assert(schema::named_trees(out@) =~= before.push((name@, s.tree())));
            }
        }
    }
    Ok(out)
}

fn parse_variants(items: &Vec<Json>) -> (r: Result<Vec<(String, Schema)>, AbiError>)
    ensures
        named_agrees(r, read_variants(json::trees(items@), items@.len())),
    decreases items,
{
    let ghost ts = json::trees(items@);
    let mut out: Vec<(String, Schema)> = Vec::new();
    let n: usize = items.len();
    assert(schema::named_trees(out@) =~= Seq::empty());
    for i in 0..n
        invariant
            n == items@.len(),
            ts == json::trees(items@),
            read_variants(ts, i as nat) == Ok::<Seq<(Seq<char>, SchemaTree)>, AbiError>(schema::named_trees(out@)),
    {
        assert(ts[i as int] == items@[i as int].tree());
        match parse_variant(&items[i]) {
            Err(e) => {
                proof {
                    lemma_variants_stopped(ts, (i + 1) as nat, n as nat);
                }
                return Err(e);
            }
            Ok((name, s)) => {
                let ghost before = schema::named_trees(out@);
                out.push((name, s));
                assert(schema::named_trees(out@) =~= before.push((name@, s.tree())));
            }
        }
    }
    Ok(out)
}

fn parse_variant(v: &Json) -> (r: Result<(String, Schema), AbiError>)
    ensures
        match (r, read_variant(v.tree())) {
            (Ok((n, s)), Ok(t)) => t == (n@, s.tree()),
            (Err(x), Err(y)) => x == y,
            _ => false,
        },
    decreases v, 1nat,
{
    match v.get("struct") {
        Some(w) => match w {
            Json::Object(wrapper) => {
                if wrapper.len() != 1 {
                    return Err(AbiError::VariantNames);
                }
                proof {
                    assert(json::field_trees(wrapper@)[0] == (wrapper@[0].0@, wrapper@[0].1.tree()));
                    assert(decreases_to!(v => w));
                    assert(decreases_to!(w => wrapper));
                    assert(decreases_to!(wrapper => wrapper@));
                    assert(decreases_to!(wrapper@ => wrapper@[0]));
                    assert(decreases_to!(wrapper@[0] => wrapper@[0].1));
                }
                match parse_schema(&wrapper[0].1) {
                    Err(e) => Err(e),
                    Ok(s) => Ok((copy_text(wrapper[0].0.as_str()), s)),
                }
            }
            _ => Err(AbiError::Variant),
        },
        None => Err(AbiError::Variant),
    }
}

fn parse_array(v: &Json) -> (r: Result<Schema, AbiError>)
    ensures
        schema_agrees(r, read_array(v.tree())),
    decreases v, 1nat,
{
    match v.get("type") {
        None => Err(AbiError::ArrayType),
        Some(ty) => match parse_schema(ty) {
            Err(e) => Err(e),
            Ok(inner) => match v.get("len") {
                None => Ok(Schema::Vec(Box::new(inner))),
                Some(l) => match l.as_u64() {
                    Some(n) => Ok(Schema::Array(Box::new(inner), #[verifier::truncate] (n as usize))),
                    None => Err(AbiError::ArrayLen),
                },
            },
        },
    }
}

/// Reads a schema.
pub fn parse_schema(v: &Json) -> (r: Result<Schema, AbiError>)
    ensures
        schema_agrees(r, read_schema(v.tree())),
    decreases v, 0nat,
{
    match v {
        Json::String(name) => match Schema::primitive(name.as_str()) {
            Some(s) => Ok(s),
            None => Err(AbiError::Primitive),
        },
        Json::Object(_) => {
            if let Some(x) = v.get("$ref") {
                match x.as_str() {
                    Some(name) => Ok(Schema::Ref(copy_text(name))),
                    None => Err(AbiError::Ref),
                }
            } else if let Some(x) = v.get("struct") {
                match x {
                    Json::Object(fields) => match parse_fields(fields) {
                        Ok(f) => {
                            proof {
                                schema::lemma_struct_tree(f);
                            }
                            Ok(Schema::Struct(f))
                        }
                        Err(e) => Err(e),
                    },
                    _ => Err(AbiError::StructFields),
                }
            } else if let Some(x) = v.get("enum") {
                match x {
                    Json::Array(items) => match parse_variants(items) {
                        Ok(f) => {
                            proof {
                                schema::lemma_enum_tree(f);
                            }
                            Ok(Schema::Enum(f))
                        }
                        Err(e) => Err(e),
                    },
                    _ => Err(AbiError::EnumVariants),
                }
            } else if let Some(x) = v.get("option") {
                match parse_schema(x) {
                    Ok(s) => Ok(Schema::Option(Box::new(s))),
                    Err(e) => Err(e),
                }
            } else if let Some(x) = v.get("array") {
                parse_array(x)
            } else {
                Err(AbiError::SchemaObject)
            }
        }
        _ => Err(AbiError::SchemaValue),
    }
}

/// Reads an opcode: a number, or a string of one.
pub fn parse_opcode(v: &Json) -> (r: Result<u128, AbiError>)
    ensures
        r == read_opcode(v.tree()),
{
    match v {
        Json::Number(s) => match read_unsigned(s.as_str(), u128::MAX) {
            Some(n) => Ok(n),
            None => Err(AbiError::Opcode),
        },
        Json::String(s) => match read_unsigned(s.as_str(), u128::MAX) {
            Some(n) => Ok(n),
            None => Err(AbiError::Opcode),
        },
        _ => Err(AbiError::OpcodeType),
    }
}

/// A text field.
pub fn get_text<'a>(v: &'a Json, key: &str) -> (r: Option<&'a str>)
    ensures
        match r {
            Some(s) => text_field(v.tree(), key@) == Some(s@),
            None => text_field(v.tree(), key@) is None,
        },
{
    match v.get(key) {
        Some(x) => x.as_str(),
        None => None,
    }
}

/// The items of an array field.
pub fn get_list<'a>(v: &'a Json, key: &str) -> (r: Option<&'a Vec<Json>>)
    ensures
        match r {
            Some(l) => list_field(v.tree(), key@) == Some(json::trees(l@)),
            None => list_field(v.tree(), key@) is None,
        },
{
    match v.get(key) {
        Some(x) => match x {
            Json::Array(items) => Some(items),
            _ => None,
        },
        None => None,
    }
}

fn parse_kind(v: &Json) -> (r: Result<MethodKind, AbiError>)
    ensures
        r == named_kind(text_field(v.tree(), "kind"@)),
{
    match get_text(v, "kind") {
        Some(name) => {
            if same_text(name, "view") {
                Ok(MethodKind::View)
            } else if same_text(name, "execute") {
                Ok(MethodKind::Execute)
            } else {
                Err(AbiError::Kind)
            }
        }
        None => Err(AbiError::Kind),
    }
}

fn parse_mode(v: &Json) -> (r: Result<IoMode, AbiError>)
    ensures
        r == named_mode(text_field(v.tree(), "mode"@)),
{
    match get_text(v, "mode") {
        Some(name) => {
            if same_text(name, "legacy") {
                Ok(IoMode::Legacy)
            } else if same_text(name, "borsh") {
                Ok(IoMode::Borsh)
            } else if same_text(name, "raw") {
                Ok(IoMode::Raw)
            } else {
                Err(AbiError::Mode)
            }
        }
        None => Err(AbiError::Mode),
    }
}

fn parse_io(v: &Json, key: &str) -> (r: Result<Option<AbiIo>, AbiError>)
    ensures
        match (r, read_io(v.tree(), key@)) {
            (Ok(io), Ok(m)) => abi::opt_io(io) == m,
            (Err(x), Err(y)) => x == y,
            _ => false,
        },
{
    match v.get(key) {
        None => Ok(None),
        Some(io) => match parse_mode(io) {
            Err(e) => Err(e),
            Ok(mode) => match io.get("schema") {
                None => Err(AbiError::IoSchema),
                Some(s) => match parse_schema(s) {
                    Err(e) => Err(e),
                    Ok(schema) => Ok(Some(AbiIo { mode, schema })),
                },
            },
        },
    }
}

fn parse_method_plan(v: &Json) -> (r: Result<Option<Plan>, AbiError>)
    ensures
        match (r, read_method_plan(v.tree())) {
            (Ok(p), Ok(m)) => abi::opt_plan(p) == m,
            (Err(x), Err(y)) => x == y,
            _ => false,
        },
{
    match v.get("plan") {
        None => Ok(None),
        Some(p) => match parse_plan(p) {
            Ok(p) => Ok(Some(p)),
            Err(e) => Err(AbiError::Plan(e)),
        },
    }
}

/// Reads the name and the opcode of a method.
pub fn parse_head(v: &Json) -> (r: Result<(&str, u128), AbiError>)
    ensures
        match (r, read_head(v.tree())) {
            (Ok((n, o)), Ok(m)) => m == (n@, o),
            (Err(x), Err(y)) => x == y,
            _ => false,
        },
{
    match get_text(v, "name") {
        None => Err(AbiError::MethodName),
        Some(name) => match v.get("opcode") {
            None => Err(AbiError::MethodOpcode),
            Some(o) => match parse_opcode(o) {
                Err(e) => Err(e),
                Ok(opcode) => Ok((name, opcode)),
            },
        },
    }
}

/// Reads a method.
pub fn parse_method(v: &Json) -> (r: Result<AbiMethod, AbiError>)
    ensures
        match (r, read_method(v.tree())) {
            (Ok(m), Ok(t)) => m.model() == t,
            (Err(x), Err(y)) => x == y,
            _ => false,
        },
{
    let (name, opcode): (&str, u128) = match parse_head(v) {
        Err(e) => {
            return Err(e);
        }
        Ok(head) => head,
    };
    let kind = match parse_kind(v) {
        Err(e) => {
            return Err(e);
        }
        Ok(kind) => kind,
    };
    let plan = match parse_method_plan(v) {
        Err(e) => {
            return Err(e);
        }
        Ok(plan) => plan,
    };
    let input = match parse_io(v, "input") {
        Err(e) => {
            return Err(e);
        }
        Ok(io) => io,
    };
    let witness = match parse_io(v, "witness") {
        Err(e) => {
            return Err(e);
        }
        Ok(io) => io,
    };
    let output = match parse_io(v, "output") {
        Err(e) => {
            return Err(e);
        }
        Ok(io) => io,
    };
    Ok(AbiMethod { name: copy_text(name), opcode, kind, input, witness, output, plan })
}

proof fn lemma_methods_stopped(items: Seq<JsonTree>, k: nat, n: nat)
    requires
        k <= n <= items.len(),
        read_methods(items, k) is Err,
    ensures
        read_methods(items, n) == read_methods(items, k),
    decreases n,
{
    if k < n {
        lemma_methods_stopped(items, k, (n - 1) as nat);
    }
}

proof fn lemma_types_stopped(fields: Seq<(Seq<char>, JsonTree)>, k: nat, n: nat)
    requires
        k <= n <= fields.len(),
        read_types(fields, k) is Err,
    ensures
        read_types(fields, n) == read_types(fields, k),
    decreases n,
{
    if k < n {
        lemma_types_stopped(fields, k, (n - 1) as nat);
    }
}

fn parse_methods(items: &Vec<Json>) -> (r: Result<Vec<AbiMethod>, AbiError>)
    ensures
        match (r, read_methods(json::trees(items@), items@.len())) {
            (Ok(ms), Ok(t)) => abi::method_models(ms@) == t,
            (Err(x), Err(y)) => x == y,
            _ => false,
        },
{
    let ghost ts = json::trees(items@);
    let mut out: Vec<AbiMethod> = Vec::new();
    let n: usize = items.len();
    assert(abi::method_models(out@) =~= Seq::empty());
    for i in 0..n
        invariant
            n == items@.len(),
            ts == json::trees(items@),
            read_methods(ts, i as nat) == Ok::<Seq<MethodModel>, AbiError>(abi::method_models(out@)),
    {
        assert(ts[i as int] == items@[i as int].tree());
        match parse_method(&items[i]) {
            Err(e) => {
                proof {
                    lemma_methods_stopped(ts, (i + 1) as nat, n as nat);
                }
                return Err(e);
            }
            Ok(m) => {
                let ghost before = abi::method_models(out@);
                out.push(m);
                assert(abi::method_models(out@) =~= before.push(m.model()));
            }
        }
    }
    Ok(out)
}

fn parse_types(v: &Json) -> (r: Result<TypeRegistry, AbiError>)
    ensures
        match (r, read_document_types(v.tree())) {
            (Ok(reg), Ok(t)) => reg.types() == t,
            (Err(x), Err(y)) => x == y,
            _ => false,
        },
{
    let mut types = TypeRegistry::new();
    if let Some(x) = v.get("types") {
        if let Json::Object(fields) = x {
            let ghost ts = json::field_trees(fields@);
            let n: usize = fields.len();
            for i in 0..n
                invariant
                    n == fields@.len(),
                    ts == json::field_trees(fields@),
                    read_document_types(v.tree()) == read_types(ts, n as nat),
                    read_types(ts, i as nat) == Ok::<Seq<(Seq<char>, SchemaTree)>, AbiError>(types.types()),
            {
                assert(ts[i as int] == (fields@[i as int].0@, fields@[i as int].1.tree()));
                match parse_schema(&fields[i].1) {
                    Err(e) => {
                        proof {
                            lemma_types_stopped(ts, (i + 1) as nat, n as nat);
                        }
                        return Err(e);
                    }
                    Ok(s) => {
                        types.insert(fields[i].0.as_str(), s);
                    }
                }
            }
        }
    }
    Ok(types)
}

/// Reads a document.
pub fn parse_alkabi_document(v: &Json) -> (r: Result<AbiDocument, AbiError>)
    ensures
        match (r, read_document(v.tree())) {
            (Ok(d), Ok(t)) => d.model() == t,
            (Err(x), Err(y)) => x == y,
            _ => false,
        },
{
    match get_text(v, "contract") {
        None => Err(AbiError::Contract),
        Some(contract) => match parse_types(v) {
            Err(e) => Err(e),
            Ok(types) => match get_list(v, "methods") {
                None => Err(AbiError::Methods),
                Some(items) => match parse_methods(items) {
                    Err(e) => Err(e),
                    Ok(methods) => Ok(AbiDocument { contract: copy_text(contract), types, methods }),
                },
            },
        },
    }
}

} // verus!
