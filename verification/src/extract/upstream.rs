//! Normalizing the upstream format, which describes methods by the names of types.
use vstd::prelude::*;
use crate::abi;
use crate::abi::{AbiDocument, AbiIo, AbiMethod, DocumentModel, IoMode, IoModel, MethodKind, MethodModel};
use crate::alkane::AlkaneId;
use crate::casing;
use crate::casing::snake_to_camel;
use crate::extract::document;
use crate::extract::document::{get_list, get_text, parse_head, AbiError};
use crate::json;
use crate::json::{Json, JsonTree};
use crate::schema;
use crate::schema::{Schema, SchemaTree, TypeRegistry};
use crate::text;
use crate::text::{chars_of, contains_char, copy_text, push_char, push_decimal, same_text, split_text, text_of, trim};
use crate::types;
use crate::types::AlkabiType;

verus! {

broadcast use json::group_json_trees;

/* ─────────────── meaning ─────────────── */

/// What stands inside `Vec<` and `>`.
pub open spec fn vec_item(ty: Seq<char>) -> Option<Seq<char>> {
    if ty.len() >= 5 && ty.take(4) == "Vec<"@ && ty.last() == '>' {
        Some(ty.subrange(4, ty.len() - 1))
    } else {
        None
    }
}

/// The schema that the name of a type stands for, and the definitions with those it
/// needs. An unknown name becomes a reference.
pub open spec fn type_schema(ty: Seq<char>, types: Seq<(Seq<char>, SchemaTree)>) -> (SchemaTree, Seq<(Seq<char>, SchemaTree)>)
    decreases ty.len(),
{
    if schema::is_primitive(ty) {
        (SchemaTree::Primitive(ty), types)
    } else if ty == "String"@ {
        (SchemaTree::Primitive("string"@), types)
    } else if ty == "AlkaneId"@ {
        (SchemaTree::Ref("AlkaneId"@), types::defined_once(types, "AlkaneId"@, types::alkane_id_tree()))
    } else {
        match vec_item(ty) {
            Some(inner) => {
                proof {
                    text::lemma_trimmed_len(inner);
                }
                let (s, t) = type_schema(text::trimmed(inner), types);
                (SchemaTree::Vec(Box::new(s)), t)
            }
            None => (SchemaTree::Ref(ty), types),
        }
    }
}

/// The kind that the name of a method suggests.
pub open spec fn suggested_kind(name: Seq<char>) -> MethodKind {
    if name == "get"@ || (name.len() >= 4 && name.take(4) == "get_"@) {
        MethodKind::View
    } else {
        MethodKind::Execute
    }
}

/// The first `n` parameters as fields, and the definitions they need.
pub open spec fn params_fields(params: Seq<JsonTree>, types: Seq<(Seq<char>, SchemaTree)>, n: nat) -> Result<
    (Seq<(Seq<char>, SchemaTree)>, Seq<(Seq<char>, SchemaTree)>),
    AbiError,
>
    decreases n,
{
    if n == 0 || n > params.len() {
        Ok((Seq::empty(), types))
    } else {
        match params_fields(params, types, (n - 1) as nat) {
            Err(e) => Err(e),
            Ok((fields, t)) => match document::text_field(params[n - 1], "name"@) {
                None => Err(AbiError::ParamName),
                Some(name) => match document::text_field(params[n - 1], "type"@) {
                    None => Err(AbiError::ParamType),
                    Some(ty) => {
                        let (s, u) = type_schema(ty, t);
                        Ok((fields.push((name, s)), u))
                    }
                },
            },
        }
    }
}

/// The input of a method: a struct of its parameters, if it has any.
pub open spec fn upstream_input(t: JsonTree, types: Seq<(Seq<char>, SchemaTree)>) -> Result<
    (Option<IoModel>, Seq<(Seq<char>, SchemaTree)>),
    AbiError,
> {
    match document::list_field(t, "params"@) {
        None => Ok((None, types)),
        Some(params) => if params.len() == 0 {
            Ok((None, types))
        } else {
            match params_fields(params, types, params.len()) {
                Err(e) => Err(e),
                Ok((fields, u)) => Ok((Some(IoModel { mode: IoMode::Legacy, schema: SchemaTree::Struct(fields) }), u)),
            }
        },
    }
}

/// The name of the `i`th value of several.
pub open spec fn place_name(i: int) -> Seq<char> {
    seq!['_'] + text::decimal(i)
}

/// The first `n` returned values as fields, and the definitions they need.
pub open spec fn parts_fields(parts: Seq<Seq<char>>, types: Seq<(Seq<char>, SchemaTree)>, n: nat) -> (
    Seq<(Seq<char>, SchemaTree)>,
    Seq<(Seq<char>, SchemaTree)>,
)
    decreases n,
{
    if n == 0 || n > parts.len() {
        (Seq::empty(), types)
    } else {
        let (fields, t) = parts_fields(parts, types, (n - 1) as nat);
        let (s, u) = type_schema(text::trimmed(parts[n - 1]), t);
        (fields.push((place_name(n - 1), s)), u)
    }
}

/// The schema of what a method returns: several values with commas between them are
/// a struct.
pub open spec fn returns_schema(returned: Seq<char>, types: Seq<(Seq<char>, SchemaTree)>) -> (
    SchemaTree,
    Seq<(Seq<char>, SchemaTree)>,
) {
    if returned.contains(',') {
        let parts = text::split(returned, ',');
        let (fields, t) = parts_fields(parts, types, parts.len());
        (SchemaTree::Struct(fields), t)
    } else {
        type_schema(text::trimmed(returned), types)
    }
}

/// The output of a method: nothing where it returns nothing.
pub open spec fn upstream_output(t: JsonTree, types: Seq<(Seq<char>, SchemaTree)>) -> (
    Option<IoModel>,
    Seq<(Seq<char>, SchemaTree)>,
) {
    match document::text_field(t, "returns"@) {
        None => (None, types),
        Some(returned) => if returned == "void"@ || returned == ""@ {
            (None, types)
        } else {
            let (s, u) = returns_schema(returned, types);
            (Some(IoModel { mode: IoMode::Raw, schema: s }), u)
        },
    }
}

/// A method, and the definitions it needs.
pub open spec fn upstream_method(t: JsonTree, types: Seq<(Seq<char>, SchemaTree)>) -> Result<
    (MethodModel, Seq<(Seq<char>, SchemaTree)>),
    AbiError,
> {
    match document::read_head(t) {
        Err(e) => Err(e),
        Ok((name, opcode)) => match upstream_input(t, types) {
            Err(e) => Err(e),
            Ok((input, u)) => {
                let (output, w) = upstream_output(t, u);
                Ok((
                    MethodModel {
                        name: casing::camel(name, name.len()),
                        opcode,
                        kind: suggested_kind(name),
                        input,
                        witness: None,
                        output,
                        plan: None,
                    },
                    w,
                ))
            }
        },
    }
}

/// The first `n` methods, and the definitions they need.
pub open spec fn upstream_methods(items: Seq<JsonTree>, n: nat) -> Result<
    (Seq<MethodModel>, Seq<(Seq<char>, SchemaTree)>),
    AbiError,
>
    decreases n,
{
    if n == 0 || n > items.len() {
        Ok((Seq::empty(), Seq::empty()))
    } else {
        match upstream_methods(items, (n - 1) as nat) {
            Err(e) => Err(e),
            Ok((ms, types)) => match upstream_method(items[n - 1], types) {
                Err(e) => Err(e),
                Ok((m, t)) => Ok((ms.push(m), t)),
            },
        }
    }
}

/// The document that an upstream one stands for.
pub open spec fn upstream_document(t: JsonTree) -> Result<DocumentModel, AbiError> {
    match document::text_field(t, "contract"@) {
        None => Err(AbiError::Contract),
        Some(contract) => match document::list_field(t, "methods"@) {
            None => Err(AbiError::Methods),
            Some(items) => match upstream_methods(items, items.len()) {
                Err(e) => Err(e),
                Ok((methods, types)) => Ok(DocumentModel { contract, types, methods }),
            },
        },
    }
}

/* ─────────────── normalizing ─────────────── */

/// Whether a text begins with another.
fn has_prefix(cs: &Vec<char>, prefix: &str) -> (r: bool)
    ensures
        r == (cs@.len() >= prefix@.len() && cs@.take(prefix@.len() as int) == prefix@),
{
    let ps = chars_of(prefix);
    let n: usize = ps.len();
    if cs.len() < n {
        return false;
    }
    assert(cs@.take(0) =~= ps@.take(0));
    for i in 0..n
        invariant
            n == ps@.len() <= cs@.len(),
            ps@ == prefix@,
            cs@.take(i as int) == ps@.take(i as int),
    {
        if cs[i] != ps[i] {
            assert(cs@.take(n as int)[i as int] != ps@[i as int]);
            return false;
        }
        assert(cs@.take(i + 1) =~= cs@.take(i as int).push(cs@[i as int]));
        assert(ps@.take(i + 1) =~= ps@.take(i as int).push(ps@[i as int]));
    }
    assert(ps@.take(n as int) =~= ps@);
    true
}

fn inside_vec(ty: &str) -> (r: Option<String>)
    ensures
        match r {
            Some(s) => vec_item(ty@) == Some(s@),
            None => vec_item(ty@) is None,
        },
{
    let cs = chars_of(ty);
    proof {
        reveal_strlit("Vec<");
    }
    if cs.len() >= 5 && has_prefix(&cs, "Vec<") && cs[cs.len() - 1] == '>' {
        Some(text_of(vstd::slice::slice_subrange(cs.as_slice(), 4, cs.len() - 1)))
    } else {
        None
    }
}

/// Map an upstream type string onto the alkabi schema grammar. Unknown names
/// become dangling `$ref`s (self-evident in the output).
pub fn upstream_type_schema(ty: &str, types: &mut TypeRegistry) -> (r: Schema)
    ensures
        (r.tree(), final(types).types()) == type_schema(ty@, old(types).types()),
    decreases ty@.len(),
{
    if let Some(primitive) = Schema::primitive(ty) {
        return primitive;
    }
    if same_text(ty, "String") {
        Schema::Primitive("string")
    } else if same_text(ty, "AlkaneId") {
        AlkaneId::collect(types);
        Schema::Ref(copy_text("AlkaneId"))
    } else {
        match inside_vec(ty) {
            Some(inner) => {
                proof {
                    text::lemma_trimmed_len(inner@);
                }
                let name = trim(inner.as_str());
                Schema::Vec(Box::new(upstream_type_schema(name.as_str(), types)))
            }
            None => Schema::Ref(copy_text(ty)),
        }
    }
}

fn kind_of(name: &str) -> (r: MethodKind)
    ensures
        r == suggested_kind(name@),
{
    proof {
        reveal_strlit("get_");
    }
    if same_text(name, "get") || has_prefix(&chars_of(name), "get_") {
        MethodKind::View
    } else {
        MethodKind::Execute
    }
}

proof fn lemma_params_stopped(params: Seq<JsonTree>, types: Seq<(Seq<char>, SchemaTree)>, k: nat, n: nat)
    requires
        k <= n <= params.len(),
        params_fields(params, types, k) is Err,
    ensures
        params_fields(params, types, n) == params_fields(params, types, k),
    decreases n,
{
    if k < n {
        lemma_params_stopped(params, types, k, (n - 1) as nat);
    }
}

/// Names and schemas, and the definitions that go with them.
pub open spec fn fields_agree(
    r: Result<Vec<(String, Schema)>, AbiError>,
    types: Seq<(Seq<char>, SchemaTree)>,
    m: Result<(Seq<(Seq<char>, SchemaTree)>, Seq<(Seq<char>, SchemaTree)>), AbiError>,
) -> bool {
    match (r, m) {
        (Ok(f), Ok((g, t))) => schema::named_trees(f@) == g && types == t,
        (Err(x), Err(y)) => x == y,
        _ => false,
    }
}

fn parse_params(params: &Vec<Json>, types: &mut TypeRegistry) -> (r: Result<Vec<(String, Schema)>, AbiError>)
    ensures
        fields_agree(r, final(types).types(), params_fields(json::trees(params@), old(types).types(), params@.len())),
{
    let ghost ts = json::trees(params@);
    let ghost known = types.types();
    let mut out: Vec<(String, Schema)> = Vec::new();
    let n: usize = params.len();
    assert(schema::named_trees(out@) =~= Seq::empty());
    for i in 0..n
        invariant
            n == params@.len(),
            ts == json::trees(params@),
            known == old(types).types(),
            fields_agree(Ok(out), types.types(), params_fields(ts, known, i as nat)),
    {
        assert(ts[i as int] == params@[i as int].tree());
        let name = match get_text(&params[i], "name") {
            None => {
                proof {
                    lemma_params_stopped(ts, known, (i + 1) as nat, n as nat);
                }
                return Err(AbiError::ParamName);
            }
            Some(name) => copy_text(name),
        };
        let ty = match get_text(&params[i], "type") {
            None => {
                proof {
                    lemma_params_stopped(ts, known, (i + 1) as nat, n as nat);
                }
                return Err(AbiError::ParamType);
            }
            Some(ty) => ty,
        };
        let s = upstream_type_schema(ty, types);
        let ghost before = schema::named_trees(out@);
        out.push((name, s));
        assert(schema::named_trees(out@) =~= before.push((name@, s.tree())));
    }
    Ok(out)
}

fn parse_input(v: &Json, types: &mut TypeRegistry) -> (r: Result<Option<AbiIo>, AbiError>)
    ensures
        match (r, upstream_input(v.tree(), old(types).types())) {
            (Ok(io), Ok((m, t))) => abi::opt_io(io) == m && final(types).types() == t,
            (Err(x), Err(y)) => x == y,
            _ => false,
        },
{
    match get_list(v, "params") {
        None => Ok(None),
        Some(params) => {
            if params.len() == 0 {
                return Ok(None);
            }
            match parse_params(params, types) {
                Err(e) => Err(e),
                Ok(fields) => {
                    proof {
                        schema::lemma_struct_tree(fields);
                    }
                    Ok(Some(AbiIo { mode: IoMode::Legacy, schema: Schema::Struct(fields) }))
                }
            }
        }
    }
}

fn numbered(i: usize) -> (r: String)
    ensures
        r@ == place_name(i as int),
{
    let mut out = String::new();
    push_char(&mut out, '_');
    push_decimal(&mut out, i as u128);
    assert(out@ =~= place_name(i as int));
    out
}

fn parse_parts(parts: &Vec<String>, types: &mut TypeRegistry) -> (r: Vec<(String, Schema)>)
    ensures
        (schema::named_trees(r@), final(types).types()) == parts_fields(
            text::texts(parts@),
            old(types).types(),
            parts@.len(),
        ),
{
    let ghost ts = text::texts(parts@);
    let ghost known = types.types();
    let mut out: Vec<(String, Schema)> = Vec::new();
    let n: usize = parts.len();
    assert(schema::named_trees(out@) =~= Seq::empty());
    for i in 0..n
        invariant
            n == parts@.len(),
            ts == text::texts(parts@),
            known == old(types).types(),
            (schema::named_trees(out@), types.types()) == parts_fields(ts, known, i as nat),
    {
        assert(ts[i as int] == parts@[i as int]@);
        let ty = trim(parts[i].as_str());
        let s = upstream_type_schema(ty.as_str(), types);
        let ghost before = schema::named_trees(out@);
        let name = numbered(i);
        out.push((name, s));
        assert(schema::named_trees(out@) =~= before.push((name@, s.tree())));
    }
    out
}

/// The schema of what a method returns.
pub fn parse_returns(returned: &str, types: &mut TypeRegistry) -> (r: Schema)
    ensures
        (r.tree(), final(types).types()) == returns_schema(returned@, old(types).types()),
{
    if contains_char(returned, ',') {
        let parts = split_text(returned, ',');
        let fields = parse_parts(&parts, types);
        proof {
            schema::lemma_struct_tree(fields);
        }
        Schema::Struct(fields)
    } else {
        let ty = trim(returned);
        upstream_type_schema(ty.as_str(), types)
    }
}

fn parse_output(v: &Json, types: &mut TypeRegistry) -> (r: Option<AbiIo>)
    ensures
        (abi::opt_io(r), final(types).types()) == upstream_output(v.tree(), old(types).types()),
{
    match get_text(v, "returns") {
        None => None,
        Some(returned) => {
            if same_text(returned, "void") || same_text(returned, "") {
                return None;
            }
            let schema = parse_returns(returned, types);
            Some(AbiIo { mode: IoMode::Raw, schema })
        }
    }
}

fn parse_upstream_method(v: &Json, types: &mut TypeRegistry) -> (r: Result<AbiMethod, AbiError>)
    ensures
        match (r, upstream_method(v.tree(), old(types).types())) {
            (Ok(m), Ok((t, u))) => m.model() == t && final(types).types() == u,
            (Err(x), Err(y)) => x == y,
            _ => false,
        },
{
    let (name, opcode): (&str, u128) = match parse_head(v) {
        Err(e) => {
            return Err(e);
        }
        Ok(head) => head,
    };
    let input = match parse_input(v, types) {
        Err(e) => {
            return Err(e);
        }
        Ok(io) => io,
    };
    let output = parse_output(v, types);
    Ok(AbiMethod { name: snake_to_camel(name), opcode, kind: kind_of(name), input, witness: None, output, plan: None })
}

proof fn lemma_upstream_stopped(items: Seq<JsonTree>, k: nat, n: nat)
    requires
        k <= n <= items.len(),
        upstream_methods(items, k) is Err,
    ensures
        upstream_methods(items, n) == upstream_methods(items, k),
    decreases n,
{
    if k < n {
        lemma_upstream_stopped(items, k, (n - 1) as nat);
    }
}

/// Reads an upstream document as an alkabi one: params become legacy schemas, returns
/// raw ones, and a method named `get` or `get_...` a view.
pub fn normalize_upstream(v: &Json) -> (r: Result<AbiDocument, AbiError>)
    ensures
        match (r, upstream_document(v.tree())) {
            (Ok(d), Ok(t)) => d.model() == t,
            (Err(x), Err(y)) => x == y,
            _ => false,
        },
{
    let contract = match get_text(v, "contract") {
        None => {
            return Err(AbiError::Contract);
        }
        Some(contract) => copy_text(contract),
    };
    let items = match get_list(v, "methods") {
        None => {
            return Err(AbiError::Methods);
        }
        Some(items) => items,
    };
    let ghost ts = json::trees(items@);
    let mut types = TypeRegistry::new();
    let mut methods: Vec<AbiMethod> = Vec::new();
    let n: usize = items.len();
    assert(abi::method_models(methods@) =~= Seq::empty());
    for i in 0..n
        invariant
            n == items@.len(),
            ts == json::trees(items@),
            document::text_field(v.tree(), "contract"@) == Some(contract@),
            document::list_field(v.tree(), "methods"@) == Some(ts),
            upstream_methods(ts, i as nat) == Ok::<(Seq<MethodModel>, Seq<(Seq<char>, SchemaTree)>), AbiError>(
                (abi::method_models(methods@), types.types()),
            ),
    {
        assert(ts[i as int] == items@[i as int].tree());
        match parse_upstream_method(&items[i], &mut types) {
            Err(e) => {
                proof {
                    lemma_upstream_stopped(ts, (i + 1) as nat, n as nat);
                }
                return Err(e);
            }
            Ok(m) => {
                let ghost before = abi::method_models(methods@);
                methods.push(m);
                assert(abi::method_models(methods@) =~= before.push(m.model()));
            }
        }
    }
    Ok(AbiDocument { contract, types, methods })
}

} // verus!
