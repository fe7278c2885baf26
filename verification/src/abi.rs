//! The alkabi ABI document: what a contract exposes through `__meta`.
use vstd::prelude::*;
use crate::extract::document::AbiError;
use crate::extract::{document, roundtrip};
use crate::json;
use crate::json::{json_number, json_text, object2, prettify, Json, JsonTree};
use crate::plan::json as plan_text;
use crate::plan::{BytesTerm, Plan};
use crate::schema;
use crate::schema::{Schema, SchemaTree, TypeRegistry};
use crate::text::copy_text;

verus! {

broadcast use json::group_json_trees;

pub const ALKABI_VERSION: u32 = 1;

#[derive(Debug, Clone, Copy, PartialEq, Eq, Structural)]
pub enum MethodKind {
    /// Read-only; called through simulate.
    View,
    /// State-mutating; called through an on-chain transaction.
    Execute,
}

/// The name of a kind.
pub open spec fn kind_name(k: MethodKind) -> Seq<char> {
    match k {
        MethodKind::View => "view"@,
        MethodKind::Execute => "execute"@,
    }
}

impl MethodKind {
    pub fn as_str(&self) -> (r: &'static str)
        ensures
            r@ == kind_name(*self),
    {
        match self {
            MethodKind::View => "view",
            MethodKind::Execute => "execute",
        }
    }
}

/// How bytes on the wire relate to the schema.
#[derive(Debug, Clone, Copy, PartialEq, Eq, Structural)]
pub enum IoMode {
    /// Positional u128 words after the opcode (u128 = 1 word, AlkaneId = 2 words,
    /// String = NUL-terminated LE-packed, Vec = length-prefixed).
    Legacy,
    /// borsh bytes chunked into 16-byte little-endian u128 words (inputs) or
    /// raw borsh bytes in `CallResponse.data` (outputs).
    Borsh,
    /// Raw response bytes: fixed-width integers as LE, strings as bare UTF-8 to
    /// end of buffer, `Vec<u8>` as the remaining bytes. Outputs only.
    Raw,
}

/// The name of a mode.
pub open spec fn mode_name(m: IoMode) -> Seq<char> {
    match m {
        IoMode::Legacy => "legacy"@,
        IoMode::Borsh => "borsh"@,
        IoMode::Raw => "raw"@,
    }
}

impl IoMode {
    pub fn as_str(&self) -> (r: &'static str)
        ensures
            r@ == mode_name(*self),
    {
        match self {
            IoMode::Legacy => "legacy",
            IoMode::Borsh => "borsh",
            IoMode::Raw => "raw",
        }
    }
}

#[derive(Debug, PartialEq, Eq)]
pub struct AbiIo {
    pub mode: IoMode,
    pub schema: Schema,
}

/// What an [`AbiIo`] is.
pub ghost struct IoModel {
    pub mode: IoMode,
    pub schema: SchemaTree,
}

impl AbiIo {
    pub open spec fn model(self) -> IoModel {
        IoModel { mode: self.mode, schema: self.schema.tree() }
    }

    /// The same, again.
    pub fn copy(&self) -> (r: AbiIo)
        ensures
            r.model() == self.model(),
    {
        AbiIo { mode: self.mode, schema: self.schema.copy() }
    }

    /// As a JSON value.
    pub fn json(&self) -> (r: Json)
        ensures
            r.tree() == io_json(self.model()),
    {
        object2("mode", json_text(self.mode.as_str()), "schema", self.schema.json())
    }
}

impl Clone for AbiIo {
    fn clone(&self) -> (r: Self)
        ensures
            r.model() == self.model(),
    {
        self.copy()
    }
}

/// What an optional [`AbiIo`] is.
pub open spec fn opt_io(io: Option<AbiIo>) -> Option<IoModel> {
    match io {
        Some(io) => Some(io.model()),
        None => None,
    }
}

#[derive(Debug, PartialEq, Eq)]
pub struct AbiMethod {
    /// camelCase name, as the TS client will expose it.
    pub name: String,
    /// Written as a bare JSON number. JSON itself has no precision limit; only
    /// JS consumers reading opcodes above 2^53 with JSON.parse would need care.
    pub opcode: u128,
    pub kind: MethodKind,
    /// None means the method takes no calldata beyond the opcode.
    pub input: Option<AbiIo>,
    /// Borsh payload carried in the reveal transaction's witness envelope
    /// rather than in calldata. Mode is always Borsh.
    pub witness: Option<AbiIo>,
    /// None means void / no declared return.
    pub output: Option<AbiIo>,
    /// A verified pure-expression plan reproducing this view's response data
    /// from storage keys alone (no execution). Synthesized by the extractor's
    /// wasm analysis — never emitted by contracts themselves.
    pub plan: Option<Plan>,
}

/// What an [`AbiMethod`] is.
pub ghost struct MethodModel {
    pub name: Seq<char>,
    pub opcode: u128,
    pub kind: MethodKind,
    pub input: Option<IoModel>,
    pub witness: Option<IoModel>,
    pub output: Option<IoModel>,
    pub plan: Option<(BytesTerm, u32)>,
}

/// What an optional plan is.
pub open spec fn opt_plan(p: Option<Plan>) -> Option<(BytesTerm, u32)> {
    match p {
        Some(p) => Some((p.expr.term(), p.trials)),
        None => None,
    }
}

impl AbiMethod {
    pub open spec fn model(self) -> MethodModel {
        MethodModel {
            name: self.name@,
            opcode: self.opcode,
            kind: self.kind,
            input: opt_io(self.input),
            witness: opt_io(self.witness),
            output: opt_io(self.output),
            plan: opt_plan(self.plan),
        }
    }
}

/// What a list of methods is.
pub open spec fn method_models(methods: Seq<AbiMethod>) -> Seq<MethodModel> {
    Seq::new(methods.len(), |i: int| methods[i].model())
}

fn copy_io(io: &Option<AbiIo>) -> (r: Option<AbiIo>)
    ensures
        opt_io(r) == opt_io(*io),
{
    match io {
        Some(io) => Some(io.copy()),
        None => None,
    }
}

impl Clone for AbiMethod {
    fn clone(&self) -> (r: Self)
        ensures
            r.model() == self.model(),
    {
        AbiMethod {
            name: copy_text(self.name.as_str()),
            opcode: self.opcode,
            kind: self.kind,
            input: copy_io(&self.input),
            witness: copy_io(&self.witness),
            output: copy_io(&self.output),
            plan: match &self.plan {
                Some(p) => Some(p.clone()),
                None => None,
            },
        }
    }
}

/// The alkabi ABI document. A contract builds one and serializes it into `__meta`; on
/// the host, one is parsed back out of any contract wasm. Re-exported at the crate
/// root as `AlkabiAbi`.
#[derive(Debug, PartialEq, Eq)]
pub struct AbiDocument {
    pub contract: String,
    pub types: TypeRegistry,
    pub methods: Vec<AbiMethod>,
}

/// What an [`AbiDocument`] is.
pub ghost struct DocumentModel {
    pub contract: Seq<char>,
    pub types: Seq<(Seq<char>, SchemaTree)>,
    pub methods: Seq<MethodModel>,
}

impl AbiDocument {
    pub open spec fn model(self) -> DocumentModel {
        DocumentModel { contract: self.contract@, types: self.types.types(), methods: method_models(self.methods@) }
    }
}

/* ─────────────── as JSON ─────────────── */

pub open spec fn io_json(io: IoModel) -> JsonTree {
    json::two("mode"@, JsonTree::String(mode_name(io.mode)), "schema"@, schema::schema_json(io.schema))
}

/// A field that is left out where there is nothing.
pub open spec fn io_field(key: Seq<char>, io: Option<IoModel>) -> Seq<(Seq<char>, JsonTree)> {
    match io {
        Some(io) => seq![(key, io_json(io))],
        None => Seq::empty(),
    }
}

pub open spec fn plan_field(plan: Option<(BytesTerm, u32)>) -> Seq<(Seq<char>, JsonTree)> {
    match plan {
        Some((e, trials)) => seq![("plan"@, plan_text::plan_json(e, trials))],
        None => Seq::empty(),
    }
}

pub open spec fn method_fields(m: MethodModel) -> Seq<(Seq<char>, JsonTree)> {
    seq![
        ("name"@, JsonTree::String(m.name)),
        ("opcode"@, json::num(m.opcode as int)),
        ("kind"@, JsonTree::String(kind_name(m.kind))),
    ] + io_field("input"@, m.input) + io_field("witness"@, m.witness) + io_field("output"@, m.output)
        + plan_field(m.plan)
}

pub open spec fn methods_json(methods: Seq<MethodModel>) -> Seq<JsonTree> {
    Seq::new(methods.len(), |i: int| JsonTree::Object(method_fields(methods[i])))
}

/// A document as JSON.
pub open spec fn document_json(d: DocumentModel) -> JsonTree {
    JsonTree::Object(
        seq![
            ("alkabi"@, json::num(ALKABI_VERSION as int)),
            ("contract"@, JsonTree::String(d.contract)),
            ("types"@, JsonTree::Object(schema::named_json(d.types))),
            ("methods"@, JsonTree::Array(methods_json(d.methods))),
        ],
    )
}

/// The source of a TypeScript module that exports a document.
pub open spec fn ts_text(contract: Seq<char>, pretty: Seq<char>) -> Seq<char> {
    "// Generated by alkabi — do not edit.\nexport const "@ + contract + "Abi = "@ + pretty
        + " as const;\n\nexport default "@ + contract + "Abi;\n"@
}

fn push_io(fields: &mut Vec<(String, Json)>, key: &str, io: &Option<AbiIo>)
    ensures
        json::field_trees(final(fields)@) == json::field_trees(old(fields)@) + io_field(key@, opt_io(*io)),
{
    let ghost before = json::field_trees(fields@);
    if let Some(io) = io {
        fields.push((copy_text(key), io.json()));
    }
    assert(json::field_trees(fields@) =~= before + io_field(key@, opt_io(*io)));
}

impl AbiMethod {
    /// As a JSON value.
    pub fn json(&self) -> (r: Json)
        ensures
            r.tree() == JsonTree::Object(method_fields(self.model())),
    {
        let mut fields: Vec<(String, Json)> = Vec::new();
        fields.push((copy_text("name"), json_text(self.name.as_str())));
        fields.push((copy_text("opcode"), json_number(self.opcode)));
        fields.push((copy_text("kind"), json_text(self.kind.as_str())));
        assert(json::field_trees(fields@) =~= seq![
            ("name"@, JsonTree::String(self.name@)),
            ("opcode"@, json::num(self.opcode as int)),
            ("kind"@, JsonTree::String(kind_name(self.kind))),
        ]);
        push_io(&mut fields, "input", &self.input);
        push_io(&mut fields, "witness", &self.witness);
        push_io(&mut fields, "output", &self.output);
        let ghost before = json::field_trees(fields@);
        if let Some(plan) = &self.plan {
            fields.push((copy_text("plan"), plan.json()));
        }
        assert(json::field_trees(fields@) =~= before + plan_field(opt_plan(self.plan)));
        Json::Object(fields)
    }

    pub fn write_json(&self, out: &mut String)
        ensures
            final(out)@ == old(out)@ + json::render(JsonTree::Object(method_fields(self.model()))),
    {
        self.json().write(out);
    }
}

impl AbiDocument {
    /// As a JSON value.
    pub fn json(&self) -> (r: Json)
        ensures
            r.tree() == document_json(self.model()),
            schema::sorted(self.model().types),
    {
        let mut methods: Vec<Json> = Vec::new();
        let n: usize = self.methods.len();
        for i in 0..n
            invariant
                n == self.methods@.len(),
                methods@.len() == i,
                forall|j: int| 0 <= j < i ==> (#[trigger] methods@[j]).tree() == JsonTree::Object(method_fields(self.methods@[j].model())),
        {
            methods.push(self.methods[i].json());
        }
        assert(json::trees(methods@) =~= methods_json(method_models(self.methods@)));
        let mut fields: Vec<(String, Json)> = Vec::new();
        fields.push((copy_text("alkabi"), json_number(ALKABI_VERSION as u128)));
        fields.push((copy_text("contract"), json_text(self.contract.as_str())));
        fields.push((copy_text("types"), self.types.json()));
        fields.push((copy_text("methods"), Json::Array(methods)));
        assert(json::field_trees(fields@) =~= document_json(self.model())->Object_0);
        Json::Object(fields)
    }

    /// Compact JSON. The types come in the order of their names, and a document of known
    /// primitives is what is read of it again.
    pub fn to_json(&self) -> (r: String)
        ensures
            r@ == json::render(document_json(self.model())),
            schema::sorted(self.model().types),
            roundtrip::known_document(self.model()) ==> document::read_document(document_json(self.model()))
                == Ok::<DocumentModel, AbiError>(self.model()),
    {
        proof {
            if schema::sorted(self.model().types) && roundtrip::known_document(self.model()) {
                roundtrip::lemma_document(self.model());
            }
        }
        self.json().to_text()
    }

    /// Pretty-printed JSON, of a document whose text serde_json reads.
    pub fn to_json_pretty(&self) -> (r: String)
        requires
            json::text_tree(json::render(document_json(self.model()))) is Ok,
        ensures
            r@ == json::pretty_text(json::text_tree(json::render(document_json(self.model())))->Ok_0),
            json::plain(document_json(self.model())) ==> r@ == json::pretty_text(document_json(self.model())),
    {
        let text = self.to_json();
        match prettify(text.as_str()) {
            Some(pretty) => pretty,
            None => {
                assert(false);
                text
            }
        }
    }

    /// Pretty-printed JSON; nothing where serde_json does not read the document's text,
    /// as when types are nested too deep for it.
    pub fn try_to_json_pretty(&self) -> (r: Option<String>)
        ensures
            match r {
                Some(s) => json::text_tree(json::render(document_json(self.model()))) matches Ok(t) && s@
                    == json::pretty_text(t),
                None => json::text_tree(json::render(document_json(self.model()))) is Err,
            },
            json::plain(document_json(self.model())) ==> r is Some,
    {
        let text = self.to_json();
        match json::parse(text.as_str()) {
            Ok(_) => Some(self.to_json_pretty()),
            Err(_) => None,
        }
    }

    /// TypeScript module source: the document exported `as const` as
    /// `<Contract>Abi` — the contract name's casing is kept verbatim
    /// (`Tortilla` -> `TortillaAbi`, `AMMPool` -> `AMMPoolAbi`). The `as const`
    /// form is what gives a TS consumer literal types — a plain `.json` import
    /// widens them. Write this to an `abi.ts` file.
    pub fn to_ts(&self) -> (r: String)
        requires
            json::text_tree(json::render(document_json(self.model()))) is Ok,
        ensures
            r@ == ts_text(
                self.contract@,
                json::pretty_text(json::text_tree(json::render(document_json(self.model())))->Ok_0),
            ),
    {
        let pretty = self.to_json_pretty();
        ts_module(self.contract.as_str(), pretty.as_str())
    }

    /// TypeScript module source; nothing where serde_json does not read the document's
    /// text.
    pub fn try_to_ts(&self) -> (r: Option<String>)
        ensures
            match r {
                Some(s) => json::text_tree(json::render(document_json(self.model()))) matches Ok(t) && s@ == ts_text(
                    self.contract@,
                    json::pretty_text(t),
                ),
                None => json::text_tree(json::render(document_json(self.model()))) is Err,
            },
            json::plain(document_json(self.model())) ==> r is Some,
    {
        let text = self.to_json();
        match json::parse(text.as_str()) {
            Ok(_) => Some(self.to_ts()),
            Err(_) => None,
        }
    }
}

/// The source of a TypeScript module that exports a document of which the text is
/// given.
pub fn ts_module(contract: &str, pretty: &str) -> (r: String)
    ensures
        r@ == ts_text(contract@, pretty@),
{
    let mut out = String::new();
    out.append("// Generated by alkabi — do not edit.\nexport const ");
    out.append(contract);
    out.append("Abi = ");
    out.append(pretty);
    out.append(" as const;\n\nexport default ");
    out.append(contract);
    out.append("Abi;\n");
    assert(out@ =~= ts_text(contract@, pretty@));
    out
}

} // verus!
