//! Host-side ABI extraction: compiled contract wasm in,
//! [`AlkabiAbi`](crate::AlkabiAbi) out.
//!
//! Works on any alkanes contract with a `__meta` export: native alkabi
//! contracts pass through verbatim; contracts built with the upstream
//! `MessageDispatch` derive have their primitive ABI normalized into an alkabi
//! v1 document (snake_case -> camelCase, params -> legacy schemas, returns ->
//! raw schemas, and a `get_*` => view heuristic for `kind` since the upstream
//! enum never recorded it — verify those by hand).
use vstd::prelude::*;
use wasmi::Module;
use crate::abi;
use crate::abi::{AbiDocument, DocumentModel};
use crate::analysis::guest;
use crate::analysis::guest::{read_passback, HostModel, PassbackError, ProbeState};
use crate::analysis::link;
use crate::analysis::link::{call_export, compile, FaultModel, Finished, GuestFault, GuestRun, LinkError, Program, SetupError};
use crate::bytes::ByteMap;
use crate::json;
use crate::json::JsonTree;
use crate::text;
use crate::text::utf8_text;

pub mod document;
pub mod format_laws;
pub mod laws;
pub mod roundtrip;
pub mod upstream;

pub use document::{parse_alkabi_document, parse_method, parse_opcode, parse_schema, AbiError};
pub use upstream::{normalize_upstream, upstream_type_schema};

verus! {

/// Why no document came out of a contract.
#[derive(Debug, PartialEq, Eq)]
pub enum ExtractError {
    /// The bytes are no module: why.
    InvalidWasm(String),
    /// An import could not be met.
    Link(LinkError),
    /// Fuel is not metered.
    Fuel,
    /// The module could not be instantiated: why.
    Instantiation(String),
    /// The start function trapped: what the trap prints.
    Start(String),
    /// The contract exports no `__meta() -> i32`.
    NoMeta,
    /// `__meta` trapped: what the trap prints.
    Trap(String),
    /// The contract exports no memory.
    NoMemory,
    /// `__meta` returned a pointer to no buffer.
    Passback(PassbackError),
    /// `__meta` returned invalid UTF-8.
    Utf8,
    /// The text is no JSON: why.
    Json(String),
    /// The JSON is no ABI document.
    Abi(AbiError),
}

/// What an [`ExtractError`] is, but for the text of a failed instantiation.
pub ghost enum ExtractFault {
    InvalidWasm(Seq<char>),
    Link(LinkError),
    Fuel,
    Instantiation,
    Start(Seq<char>),
    NoMeta,
    Trap(Seq<char>),
    NoMemory,
    Passback(PassbackError),
    Utf8,
    Json(Seq<char>),
    Abi(AbiError),
}

impl ExtractError {
    pub open spec fn model(self) -> ExtractFault {
        match self {
            ExtractError::InvalidWasm(s) => ExtractFault::InvalidWasm(s@),
            ExtractError::Link(e) => ExtractFault::Link(e),
            ExtractError::Fuel => ExtractFault::Fuel,
            ExtractError::Instantiation(_) => ExtractFault::Instantiation,
            ExtractError::Start(s) => ExtractFault::Start(s@),
            ExtractError::NoMeta => ExtractFault::NoMeta,
            ExtractError::Trap(s) => ExtractFault::Trap(s@),
            ExtractError::NoMemory => ExtractFault::NoMemory,
            ExtractError::Passback(e) => ExtractFault::Passback(e),
            ExtractError::Utf8 => ExtractFault::Utf8,
            ExtractError::Json(s) => ExtractFault::Json(s@),
            ExtractError::Abi(e) => ExtractFault::Abi(e),
        }
    }
}

/* ─────────────── meaning ─────────────── */

/// The document that a JSON value describes, and whether it had to be normalized.
pub open spec fn tree_document(t: JsonTree) -> Result<(DocumentModel, bool), ExtractFault> {
    if json::field(t, "alkabi"@) is Some {
        match document::read_document(t) {
            Ok(d) => Ok((d, false)),
            Err(e) => Err(ExtractFault::Abi(e)),
        }
    } else {
        match upstream::upstream_document(t) {
            Ok(d) => Ok((d, true)),
            Err(e) => Err(ExtractFault::Abi(e)),
        }
    }
}

/// The document that a text describes, and whether it had to be normalized.
pub open spec fn text_document(s: Seq<char>) -> Result<(DocumentModel, bool), ExtractFault> {
    match json::text_tree(s) {
        Err(s) => Err(ExtractFault::Json(s)),
        Ok(t) => tree_document(t),
    }
}

/// The host's state while `__meta` runs.
pub open spec fn idle_state() -> HostModel {
    HostModel { storage: Map::empty(), height: 0, context: Seq::empty(), keys: Seq::empty(), disqualified: None }
}

/// The bytes that a run of `__meta` exposes.
pub open spec fn meta_bytes(run: GuestRun) -> Result<Seq<u8>, ExtractFault> {
    match run.end {
        Err(FaultModel::Instantiation) => Err(ExtractFault::Instantiation),
        Err(FaultModel::Start(s)) => Err(ExtractFault::Start(s)),
        Err(FaultModel::NoExport) => Err(ExtractFault::NoMeta),
        Err(FaultModel::Trap(s)) => Err(ExtractFault::Trap(s)),
        Ok((_, None)) => Err(ExtractFault::NoMemory),
        Ok((ptr, Some(memory))) => match guest::passback(memory, ptr as u32 as usize) {
            Ok(b) => Ok(b),
            Err(e) => Err(ExtractFault::Passback(e)),
        },
    }
}

/// The fuel of a call of `__meta`: as much as can be given.
pub const META_FUEL: u64 = 0xffff_ffff_ffff_ffff;

/// The bytes that the `__meta` export of a module exposes, with its imports stubbed.
pub open spec fn module_meta(p: Program) -> Result<Seq<u8>, ExtractFault> {
    match link::export_run(p, META_FUEL, idle_state(), false, "__meta"@) {
        Ok(run) => meta_bytes(run),
        Err(SetupError::Link(e)) => Err(ExtractFault::Link(e)),
        Err(SetupError::Fuel) => Err(ExtractFault::Fuel),
    }
}

/// The document in the bytes that `__meta` exposes.
pub open spec fn bytes_document(b: Seq<u8>) -> Result<DocumentModel, ExtractFault> {
    match text::utf8_chars(b) {
        None => Err(ExtractFault::Utf8),
        Some(s) => match text_document(s) {
            Ok((d, _)) => Ok(d),
            Err(e) => Err(e),
        },
    }
}

pub open spec fn bytes_agree(r: Result<Vec<u8>, ExtractError>, m: Result<Seq<u8>, ExtractFault>) -> bool {
    match (r, m) {
        (Ok(b), Ok(s)) => b@ == s,
        (Err(e), Err(f)) => e.model() == f,
        _ => false,
    }
}

pub open spec fn document_agrees(r: Result<AbiDocument, ExtractError>, m: Result<DocumentModel, ExtractFault>) -> bool {
    match (r, m) {
        (Ok(d), Ok(t)) => d.model() == t,
        (Err(e), Err(f)) => e.model() == f,
        _ => false,
    }
}

/// Whether bytes are those that `__meta` exposes in a module compiled from `wasm`.
pub open spec fn extracts_meta(wasm: Seq<u8>, r: Result<Vec<u8>, ExtractError>) -> bool {
    match link::compilation(wasm) {
        Ok(()) => exists|m: Module| #[trigger] link::module_source(m) == (wasm, true) && bytes_agree(r, module_meta(link::program_of(m))),
        Err(s) => r matches Err(e) && e.model() == ExtractFault::InvalidWasm(s),
    }
}

/// The document of a module.
pub open spec fn module_document(p: Program) -> Result<DocumentModel, ExtractFault> {
    match module_meta(p) {
        Ok(b) => bytes_document(b),
        Err(e) => Err(e),
    }
}

/// Whether a document is the one of a module compiled from `wasm`.
pub open spec fn extracts_document(wasm: Seq<u8>, r: Result<AbiDocument, ExtractError>) -> bool {
    match link::compilation(wasm) {
        Ok(()) => exists|m: Module| #[trigger] link::module_source(m) == (wasm, true) && document_agrees(r, module_document(link::program_of(m))),
        Err(s) => r matches Err(e) && e.model() == ExtractFault::InvalidWasm(s),
    }
}

/* ─────────────── extraction ─────────────── */

/// Whether a document that was written as a text is what comes of reading it.
pub open spec fn gives_back(s: Seq<char>, r: Result<(AbiDocument, bool), ExtractError>) -> bool {
    forall|d: DocumentModel| #![trigger abi::document_json(d)]
        roundtrip::described_document(d) && json::plain(abi::document_json(d)) && json::render(abi::document_json(d)) == s
            ==> (r matches Ok((doc, normalized)) && doc.model() == d && !normalized)
}

/// Parse an ABI JSON string (as returned by `__meta` or the indexer's `meta`
/// view) into a document. The second return value is true when the input was
/// the upstream (pre-alkabi) format and had to be normalized. What was written of a
/// document is read back.
pub fn parse_abi_json(json: &str) -> (r: Result<(AbiDocument, bool), ExtractError>)
    ensures
        match (r, text_document(json@)) {
            (Ok((d, n)), Ok(t)) => t == (d.model(), n),
            (Err(e), Err(f)) => e.model() == f,
            _ => false,
        },
        r matches Ok((d, _)) ==> roundtrip::described_document(d.model()),
        gives_back(json@, r),
{
    let value = match json::parse(json) {
        Err(e) => {
            return Err(ExtractError::Json(e));
        }
        Ok(value) => value,
    };
    proof {
        assert forall|d: DocumentModel| #![trigger abi::document_json(d)]
            roundtrip::described_document(d) && json::plain(abi::document_json(d)) && json::render(abi::document_json(d))
                == json@ implies text_document(json@) == Ok::<(DocumentModel, bool), ExtractFault>((d, false)) by {
            assert(json::text_tree(json@) == Ok::<JsonTree, Seq<char>>(abi::document_json(d)));
            roundtrip::lemma_document(d);
        }
    }
    proof {
        roundtrip::lemma_read_again(value.tree());
    }
    if value.get("alkabi").is_some() {
        match parse_alkabi_document(&value) {
            Ok(d) => Ok((d, false)),
            Err(e) => Err(ExtractError::Abi(e)),
        }
    } else {
        match normalize_upstream(&value) {
            Ok(d) => Ok((d, true)),
            Err(e) => Err(ExtractError::Abi(e)),
        }
    }
}

/// The bytes that a finished call of `__meta` exposes (the length-prefixed
/// arraybuffer convention: u32 LE length at ptr-4).
pub fn read_meta(f: Finished) -> (r: Result<Vec<u8>, ExtractError>)
    ensures
        bytes_agree(r, meta_bytes(f.model())),
        f.end matches Err(GuestFault::Instantiation(s)) ==> r == Err::<Vec<u8>, ExtractError>(ExtractError::Instantiation(s)),
{
    match f.end {
        Err(GuestFault::Instantiation(s)) => Err(ExtractError::Instantiation(s)),
        Err(GuestFault::Start(s)) => Err(ExtractError::Start(s)),
        Err(GuestFault::NoExport) => Err(ExtractError::NoMeta),
        Err(GuestFault::Trap(s)) => Err(ExtractError::Trap(s)),
        Ok((_, None)) => Err(ExtractError::NoMemory),
        Ok((ptr, Some(memory))) => match read_passback(memory.as_slice(), #[verifier::truncate] (ptr as u32) as usize) {
            Ok(b) => Ok(b),
            Err(e) => Err(ExtractError::Passback(e)),
        },
    }
}

fn call_meta(m: &Module) -> (r: Result<Vec<u8>, ExtractError>)
    requires
        link::module_source(*m).1,
    ensures
        bytes_agree(r, module_meta(link::program_of(*m))),
{
    let state = ProbeState { storage: ByteMap::new(), height: 0, context: Vec::new(), keys: Vec::new(), disqualified: None };
    proof {
        assert(state.model().storage =~= Map::empty());
        assert(state.model().keys =~= Seq::empty());
        assert(state.model() == idle_state());
    }
    match call_export(m, META_FUEL, state, false, "__meta") {
        Ok(f) => read_meta(f),
        Err(SetupError::Link(e)) => Err(ExtractError::Link(e)),
        Err(SetupError::Fuel) => Err(ExtractError::Fuel),
    }
}

/// Run the contract's `__meta` export with every import stubbed and return the
/// raw bytes it exposes. The `__meta` path is pure — it only formats a string —
/// so no-op host stubs are safe.
pub fn extract_meta_bytes(wasm: &[u8]) -> (r: Result<Vec<u8>, ExtractError>)
    ensures
        extracts_meta(wasm@, r),
{
    match compile(wasm) {
        Err(e) => Err(ExtractError::InvalidWasm(e)),
        Ok(m) => {
            let r = call_meta(&m);
            assert(link::module_source(m) == (wasm@, true) && bytes_agree(r, module_meta(link::program_of(m))));
            r
        }
    }
}

/// The document in the bytes that `__meta` exposes.
pub fn read_document_bytes(b: Vec<u8>) -> (r: Result<AbiDocument, ExtractError>)
    ensures
        document_agrees(r, bytes_document(b@)),
{
    match utf8_text(b) {
        None => Err(ExtractError::Utf8),
        Some(s) => match parse_abi_json(s.as_str()) {
            Ok((d, _)) => Ok(d),
            Err(e) => Err(e),
        },
    }
}

/// Instantiate the wasm, call `__meta`, parse, and normalize if needed.
pub fn extract_abi(wasm: &[u8]) -> (r: Result<AbiDocument, ExtractError>)
    ensures
        extracts_document(wasm@, r),
{
    match compile(wasm) {
        Err(e) => Err(ExtractError::InvalidWasm(e)),
        Ok(m) => {
            let r = match call_meta(&m) {
                Ok(b) => read_document_bytes(b),
                Err(e) => Err(e),
            };
            assert(link::module_source(m) == (wasm@, true) && document_agrees(r, module_document(link::program_of(m))));
            r
        }
    }
}

/// The same integer code gives the same bytes, or fails in the same way, however often
/// it is asked.
pub proof fn lemma_meta_reproducible(wasm: Seq<u8>, a: Result<Vec<u8>, ExtractError>, b: Result<Vec<u8>, ExtractError>)
    requires
        link::integer_only(wasm),
        extracts_meta(wasm, a),
        extracts_meta(wasm, b),
    ensures
        match (a, b) {
            (Ok(x), Ok(y)) => x@ == y@,
            (Err(x), Err(y)) => x.model() == y.model(),
            _ => false,
        },
{
    if link::compilation(wasm) is Ok {
        let m = choose|m: Module| #[trigger] link::module_source(m) == (wasm, true) && bytes_agree(a, module_meta(link::program_of(m)));
        let n = choose|m: Module| #[trigger] link::module_source(m) == (wasm, true) && bytes_agree(b, module_meta(link::program_of(m)));
        link::lemma_same_program(m, n);
    }
}

/// The same of the document.
pub proof fn lemma_document_reproducible(wasm: Seq<u8>, a: Result<AbiDocument, ExtractError>, b: Result<AbiDocument, ExtractError>)
    requires
        link::integer_only(wasm),
        extracts_document(wasm, a),
        extracts_document(wasm, b),
    ensures
        match (a, b) {
            (Ok(x), Ok(y)) => x.model() == y.model(),
            (Err(x), Err(y)) => x.model() == y.model(),
            _ => false,
        },
{
    if link::compilation(wasm) is Ok {
        let m = choose|m: Module| #[trigger] link::module_source(m) == (wasm, true) && document_agrees(a, module_document(link::program_of(m)));
        let n = choose|m: Module| #[trigger] link::module_source(m) == (wasm, true) && document_agrees(b, module_document(link::program_of(m)));
        link::lemma_same_program(m, n);
    }
}

} // verus!
