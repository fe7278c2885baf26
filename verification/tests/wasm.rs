//! Contracts assembled by hand: extraction, probing, synthesis and lifting.

use alkabi::abi::MethodKind;
use alkabi::analysis::guest::PassbackError;
use alkabi::analysis::host::{Oracle, Outcome, ProbeError, Prober};
use alkabi::analysis::lift::explore::explore_view;
use alkabi::analysis::lift::module::{ModuleError, WasmModule};
use alkabi::analysis::lift::op::Op;
use alkabi::analysis::lift::{lift_view, verify_lifted};
use alkabi::analysis::link::LinkError;
use alkabi::analysis::list::try_list_plan;
use alkabi::analysis::synth::discover_keys;
use alkabi::analysis::verify::{oracle_with, OracleEnv};
use alkabi::analysis::{attach_plans, synthesize_one, AnalysisConfig};
use alkabi::extract::{extract_abi, extract_meta_bytes, AbiError, ExtractError};
use alkabi::plan::{eval_plan, BytesExpr, NumExpr, Plan};

/* ─────────────── an assembler ─────────────── */

fn leb(mut n: u32) -> Vec<u8> {
    let mut out = Vec::new();
    loop {
        let b = (n & 0x7f) as u8;
        n >>= 7;
        if n == 0 {
            out.push(b);
            return out;
        }
        out.push(b | 0x80);
    }
}

fn sleb(mut n: i64) -> Vec<u8> {
    let mut out = Vec::new();
    loop {
        let b = (n & 0x7f) as u8;
        n >>= 7;
        if (n == 0 && b & 0x40 == 0) || (n == -1 && b & 0x40 != 0) {
            out.push(b);
            return out;
        }
        out.push(b | 0x80);
    }
}

fn sized(body: &[u8]) -> Vec<u8> {
    [leb(body.len() as u32), body.to_vec()].concat()
}

fn list(items: &[Vec<u8>]) -> Vec<u8> {
    [leb(items.len() as u32), items.concat()].concat()
}

fn section(id: u8, body: Vec<u8>) -> Vec<u8> {
    [vec![id], sized(&body)].concat()
}

const I32: u8 = 0x7f;

fn i32c(n: i32) -> Vec<u8> {
    [vec![0x41], sleb(n as i64)].concat()
}

fn i64c(n: i64) -> Vec<u8> {
    [vec![0x42], sleb(n)].concat()
}

fn call(f: u32) -> Vec<u8> {
    [vec![0x10], leb(f)].concat()
}

fn get(l: u8) -> Vec<u8> {
    vec![0x20, l]
}

fn set(l: u8) -> Vec<u8> {
    vec![0x21, l]
}

fn mem(op: u8, offset: u32) -> Vec<u8> {
    [vec![op, 0], leb(offset)].concat()
}

const DROP: u8 = 0x1a;
const ADD: u8 = 0x6a;
const EQ: u8 = 0x46;
const LOAD: u8 = 0x28;
const LOAD64: u8 = 0x29;
const STORE: u8 = 0x36;
const STORE64: u8 = 0x37;
const LOAD16: u8 = 0x2f;
const STORE8: u8 = 0x3a;
const STORE16: u8 = 0x3b;

/// Runs `body` if the opcode is `n`.
fn case(n: i32, body: Vec<u8>, other: Vec<u8>) -> Vec<u8> {
    [get(0), i32c(n), vec![EQ, 0x04, 0x40], body, vec![0x05], other, vec![0x0b]].concat()
}

const KEY: i32 = 20;
const USER: i32 = 64;
const CONTEXT: i32 = 256;
const LENGTH: i32 = 132;
const ELEMENT: i32 = 152;
const OUT: i32 = 2052;
const META: i32 = 4100;

const REQUEST_STORAGE: u32 = 0;
const LOAD_STORAGE: u32 = 1;
const REQUEST_CONTEXT: u32 = 2;
const LOAD_CONTEXT: u32 = 3;
const HEIGHT: u32 = 4;
const BALANCE: u32 = 5;

fn prefixed(bytes: &[u8]) -> Vec<u8> {
    [(bytes.len() as u32).to_le_bytes().to_vec(), bytes.to_vec()].concat()
}

/// Reads a key into the response; its length goes to local 1.
fn read_key(key: i32) -> Vec<u8> {
    [
        i32c(key),
        call(REQUEST_STORAGE),
        set(1),
        i32c(key),
        i32c(OUT + 20),
        call(LOAD_STORAGE),
        vec![DROP],
    ]
    .concat()
}

/// The first two bytes of the calldata behind the opcode, copied into the key of a user.
fn copy_user() -> Vec<u8> {
    [i32c(USER + 6), i32c(CONTEXT), mem(LOAD16, 112), mem(STORE16, 0)].concat()
}

/// Reads a list of at most ten elements, one behind the other. Locals: 1 the bytes so
/// far, 2 the index, 3 the length.
fn read_list() -> Vec<u8> {
    [
        i32c(LENGTH),
        call(REQUEST_STORAGE),
        vec![DROP],
        i32c(LENGTH),
        i32c(OUT + 20),
        call(LOAD_STORAGE),
        vec![DROP],
        i32c(OUT + 20),
        mem(LOAD, 0),
        set(3),
        // block, loop: until the index is the length
        vec![0x02, 0x40, 0x03, 0x40],
        get(2),
        get(3),
        vec![EQ, 0x0d, 1],
        i32c(ELEMENT + 3),
        get(2),
        i32c(48),
        vec![ADD],
        mem(STORE8, 0),
        i32c(ELEMENT),
        i32c(OUT + 20),
        get(1),
        vec![ADD],
        call(LOAD_STORAGE),
        i32c(ELEMENT),
        call(REQUEST_STORAGE),
        vec![DROP],
        get(1),
        vec![ADD],
        set(1),
        get(2),
        i32c(1),
        vec![ADD],
        set(2),
        vec![0x0c, 0, 0x0b, 0x0b],
    ]
    .concat()
}

/// Traps up to a height of a million.
fn late() -> Vec<u8> {
    [
        i32c(OUT - 20),
        call(HEIGHT),
        i32c(OUT - 20),
        mem(LOAD, 0),
        i32c(1_000_000),
        vec![0x4d, 0x04, 0x40, 0x00, 0x0b],
    ]
    .concat()
}

fn execute() -> Vec<u8> {
    let counter = read_key(KEY);
    let height = [i32c(OUT + 20), call(HEIGHT), i32c(8), set(1)].concat();
    let user = [copy_user(), read_key(USER)].concat();
    // twice the counter and three, in eight bytes
    let affine = [
        read_key(KEY),
        i32c(OUT + 20),
        i32c(OUT + 20),
        mem(LOAD64, 0),
        i64c(2),
        vec![0x7e],
        i64c(3),
        vec![0x7c],
        mem(STORE64, 0),
        i32c(8),
        set(1),
    ]
    .concat();
    let balance = [i32c(0), call(BALANCE), vec![DROP]].concat();
    // two that answer only above a height
    let late_height = [late(), height.clone()].concat();
    let late_counter = [counter.clone(), late()].concat();
    // the counter, if it has eight bytes
    let short = [counter.clone(), get(1), i32c(8), vec![0x47, 0x04, 0x40, 0x00, 0x0b]].concat();
    let last = case(109, late_height, case(110, late_counter, case(111, short, vec![0x00])));
    let cases = case(
        104,
        counter,
        case(
            102,
            height,
            case(105, user, case(106, affine, case(107, read_list(), case(108, balance, last)))),
        ),
    );
    [
        call(REQUEST_CONTEXT),
        vec![DROP],
        i32c(CONTEXT),
        call(LOAD_CONTEXT),
        vec![DROP],
        i32c(CONTEXT),
        mem(LOAD, 96),
        set(0),
        cases,
        i32c(OUT - 4),
        get(1),
        i32c(20),
        vec![ADD],
        mem(STORE, 0),
        i32c(OUT),
    ]
    .concat()
}

fn func_type(params: &[u8], results: &[u8]) -> Vec<u8> {
    [vec![0x60], sized(params), sized(results)].concat()
}

fn import(name: &str, ty: u8) -> Vec<u8> {
    [sized(b"env"), sized(name.as_bytes()), vec![0, ty]].concat()
}

fn export(name: &str, kind: u8, index: u32) -> Vec<u8> {
    [sized(name.as_bytes()), vec![kind], leb(index)].concat()
}

fn data(at: i32, bytes: &[u8]) -> Vec<u8> {
    [vec![0], i32c(at), vec![0x0b], sized(bytes)].concat()
}

fn code(locals: u8, body: Vec<u8>) -> Vec<u8> {
    sized(&[vec![1, locals, I32], body, vec![0x0b]].concat())
}

/// A contract with the given `__meta` body and document text.
fn contract_with(meta_body: Vec<u8>, meta: &[u8], imports: &[Vec<u8>], exports: &[Vec<u8>]) -> Vec<u8> {
    let n = imports.len() as u32;
    let mut all = vec![export("__meta", 0, n), export("__execute", 0, n + 1)];
    all.extend(exports.iter().cloned());
    [
        b"\0asm\x01\0\0\0".to_vec(),
        section(
            1,
            list(&[
                func_type(&[I32], &[I32]),
                func_type(&[I32, I32], &[I32]),
                func_type(&[], &[I32]),
                func_type(&[I32], &[]),
            ]),
        ),
        section(2, list(imports)),
        section(3, list(&[vec![2], vec![2]])),
        section(5, list(&[vec![0, 1]])),
        section(7, list(&all)),
        section(10, list(&[code(4, meta_body), code(4, execute())])),
        section(
            11,
            list(&[
                data(KEY - 4, &prefixed(b"/counter")),
                data(USER - 4, &prefixed(b"/user/..")),
                data(LENGTH - 4, &prefixed(b"/l/length")),
                data(ELEMENT - 4, &prefixed(b"/l/0")),
                data(META - 4, &prefixed(meta)),
            ]),
        ),
    ]
    .concat()
}

fn host_imports() -> Vec<Vec<u8>> {
    vec![
        import("__request_storage", 0),
        import("__load_storage", 1),
        import("__request_context", 2),
        import("__load_context", 0),
        import("__height", 3),
        import("__balance", 0),
    ]
}

const DOCUMENT: &str = "{\"alkabi\":1,\"contract\":\"Clock\",\"types\":{},\"methods\":[{\"name\":\"getCounter\",\"opcode\":104,\"kind\":\"view\",\"output\":{\"mode\":\"raw\",\"schema\":\"u128\"}},{\"name\":\"getHeight\",\"opcode\":102,\"kind\":\"view\"},{\"name\":\"tick\",\"opcode\":104,\"kind\":\"execute\"}]}";

fn contract() -> Vec<u8> {
    contract_with(i32c(META), DOCUMENT.as_bytes(), &host_imports(), &[export("memory", 2, 0)])
}

fn config() -> AnalysisConfig {
    AnalysisConfig { verify_trials: 16, ..AnalysisConfig::default() }
}

fn prober() -> Prober {
    Prober::new(&contract(), 1_000_000).unwrap()
}

fn storage(key: &[u8]) -> BytesExpr {
    BytesExpr::Storage(Box::new(BytesExpr::Const(key.to_vec())))
}

/* ─────────────── extraction ─────────────── */

#[test]
fn meta_bytes_are_read_out_of_memory() {
    assert_eq!(extract_meta_bytes(&contract()).unwrap(), DOCUMENT.as_bytes());
}

#[test]
fn documents_come_out_of_contracts() {
    let abi = extract_abi(&contract()).unwrap();
    assert_eq!(abi.contract, "Clock");
    assert_eq!(abi.to_json(), DOCUMENT);
    let pretty = abi.try_to_json_pretty().unwrap();
    assert!(pretty.starts_with("{\n  \"alkabi\": 1,\n  \"contract\": \"Clock\",\n  \"types\": {},"));
    assert_eq!(abi.to_json_pretty(), pretty);
    let ts = abi.try_to_ts().unwrap();
    assert_eq!(
        ts,
        format!("// Generated by alkabi — do not edit.\nexport const ClockAbi = {} as const;\n\nexport default ClockAbi;\n", pretty)
    );
    assert_eq!(abi.to_ts(), ts);
}

#[test]
fn extraction_errors_are_told_apart() {
    let memory = [export("memory", 2, 0)];
    let with = |meta: Vec<u8>, text: &[u8]| contract_with(meta, text, &host_imports(), &memory);
    assert!(matches!(extract_meta_bytes(b"no wasm"), Err(ExtractError::InvalidWasm(why)) if why.contains("bad magic number")));
    assert!(matches!(extract_abi(b"no wasm"), Err(ExtractError::InvalidWasm(why)) if why.contains("bad magic number")));
    let twice = [host_imports(), vec![import("__height", 3)]].concat();
    assert_eq!(
        extract_meta_bytes(&contract_with(i32c(META), b"{}", &twice, &memory)),
        Err(ExtractError::Link(LinkError::Duplicate))
    );
    assert!(matches!(extract_meta_bytes(&with(vec![0x00], b"{}")), Err(ExtractError::Trap(_))));
    assert_eq!(
        extract_meta_bytes(&contract_with(i32c(META), b"{}", &host_imports(), &[])),
        Err(ExtractError::NoMemory)
    );
    assert_eq!(
        extract_meta_bytes(&with(i32c(3), b"{}")),
        Err(ExtractError::Passback(PassbackError::Pointer(3)))
    );
    assert_eq!(
        extract_meta_bytes(&with(i32c(-1), b"{}")),
        Err(ExtractError::Passback(PassbackError::Pointer(0xffff_ffff)))
    );
    // the four bytes before the user key's text
    let long = [
        i32c(OUT - 4),
        i32c(100_000),
        mem(STORE, 0),
        i32c(OUT),
    ]
    .concat();
    assert_eq!(
        extract_meta_bytes(&with(long, b"{}")),
        Err(ExtractError::Passback(PassbackError::Length(100_000)))
    );
    assert_eq!(extract_abi(&with(i32c(META), &[0xff])).unwrap_err(), ExtractError::Utf8);
    assert_eq!(
        extract_abi(&with(i32c(META), b"{")).unwrap_err(),
        ExtractError::Json("EOF while parsing an object at line 1 column 1".to_string())
    );
    assert_eq!(extract_abi(&with(i32c(META), b"{}")).unwrap_err(), ExtractError::Abi(AbiError::Contract));
    // no `__meta` of the right type
    let no_meta = [
        b"\0asm\x01\0\0\0".to_vec(),
        section(5, list(&[vec![0, 1]])),
        section(7, list(&memory)),
    ]
    .concat();
    assert_eq!(extract_meta_bytes(&no_meta), Err(ExtractError::NoMeta));
    // a start function that traps
    let start = [
        b"\0asm\x01\0\0\0".to_vec(),
        section(1, list(&[func_type(&[], &[])])),
        section(3, list(&[vec![0]])),
        section(8, vec![0]),
        section(10, list(&[sized(&[0, 0x00, 0x0b])])),
    ]
    .concat();
    assert!(matches!(extract_meta_bytes(&start), Err(ExtractError::Start(why)) if why.contains("unreachable")));
    // a segment that does not fit
    let segment = [
        b"\0asm\x01\0\0\0".to_vec(),
        section(5, list(&[vec![0, 1]])),
        section(11, list(&[data(65_535, b"ab")])),
    ]
    .concat();
    assert!(matches!(extract_meta_bytes(&segment), Err(ExtractError::Instantiation(why) | ExtractError::Start(why)) if !why.is_empty()));
}

/* ─────────────── probing ─────────────── */

#[test]
fn runs_report_data_and_keys() {
    let p = prober();
    let run = p.run(104, &[], &oracle_with(&[(b"/counter", b"hello")])).unwrap();
    assert_eq!(run.outcome, Outcome::Success(b"hello".to_vec()));
    assert_eq!(run.keys, vec![b"/counter".to_vec()]);
    let run = p.run(102, &[], &Oracle::default()).unwrap();
    assert_eq!(run.outcome, Outcome::Success(880_001u64.to_le_bytes().to_vec()));
    assert!(run.keys.is_empty());
    let run = p.run(105, &[0x0201], &Oracle::default()).unwrap();
    assert_eq!(run.keys, vec![b"/user/\x01\x02".to_vec()]);
}

#[test]
fn runs_tell_traps_from_disqualification() {
    let p = prober();
    assert!(matches!(p.run(999, &[], &Oracle::default()).unwrap().outcome, Outcome::Trap(_)));
    assert_eq!(p.run(108, &[], &Oracle::default()).unwrap().outcome, Outcome::Disqualified("__balance"));
    // out of fuel
    let starved = Prober::new(&contract(), 10).unwrap();
    assert!(matches!(starved.run(104, &[], &Oracle::default()).unwrap().outcome, Outcome::Trap(_)));
}

#[test]
fn probe_errors_are_told_apart() {
    assert!(matches!(Prober::new(b"no wasm", 10), Err(ProbeError::InvalidWasm(why)) if why.contains("bad magic number")));
    let empty = [b"\0asm\x01\0\0\0".to_vec()].concat();
    let p = Prober::new(&empty, 1000).unwrap();
    assert_eq!(p.run(0, &[], &Oracle::default()), Err(ProbeError::NoExecute));
    let bare = contract_with(i32c(META), b"{}", &host_imports(), &[]);
    let p = Prober::new(&bare, 1_000_000).unwrap();
    assert!(matches!(p.run(102, &[], &Oracle::default()).unwrap().outcome, Outcome::Trap(_)));
    // a memory that is neither exported nor used
    let silent = [
        b"\0asm\x01\0\0\0".to_vec(),
        section(1, list(&[func_type(&[], &[I32])])),
        section(3, list(&[vec![0]])),
        section(7, list(&[export("__execute", 0, 0)])),
        section(10, list(&[sized(&[vec![0], i32c(8), vec![0x0b]].concat())])),
    ]
    .concat();
    let p = Prober::new(&silent, 1_000_000).unwrap();
    assert_eq!(p.run(0, &[], &Oracle::default()), Err(ProbeError::NoMemory));
    // a segment that does not fit
    let segment = [
        b"\0asm\x01\0\0\0".to_vec(),
        section(5, list(&[vec![0, 1]])),
        section(11, list(&[data(65_535, b"ab")])),
    ]
    .concat();
    let p = Prober::new(&segment, 1_000_000).unwrap();
    assert!(matches!(p.run(0, &[], &Oracle::default()), Err(ProbeError::Instantiation(why)) if !why.is_empty()));
}

#[test]
fn context_words_are_in_order() {
    let mut oracle = Oracle::default();
    oracle.incoming = vec![(2, 5, 1000)];
    let bytes = oracle.context_bytes(77, &[8, 9]);
    let words: Vec<u128> = bytes.chunks(16).map(|c| u128::from_le_bytes(c.try_into().unwrap())).collect();
    assert_eq!(words, vec![2, 7777, 0, 0, 4, 1, 2, 5, 1000, 77, 8, 9]);
}

/* ─────────────── synthesis ─────────────── */

#[test]
fn synthesis_recovers_getters() {
    let p = prober();
    let plan = synthesize_one(&p, 104, 0, &config()).unwrap();
    assert_eq!(plan, Plan { expr: storage(b"/counter"), trials: 16 });
    let plan = synthesize_one(&p, 102, 0, &config()).unwrap();
    assert_eq!(plan.expr, BytesExpr::Le { of: Box::new(NumExpr::Height), width: 8 });
    let plan = synthesize_one(&p, 105, 1, &config()).unwrap();
    assert_eq!(
        plan.expr,
        BytesExpr::Storage(Box::new(BytesExpr::Concat(vec![
            BytesExpr::Const(b"/user/".to_vec()),
            BytesExpr::Calldata { start: 0, len: Some(2) },
        ])))
    );
}

#[test]
fn synthesis_fits_affine_numbers() {
    let p = prober();
    let plan = synthesize_one(&p, 106, 0, &config()).unwrap();
    let oracle = oracle_with(&[(b"/counter", &20u128.to_le_bytes())]);
    let mut env = OracleEnv::new(&oracle, &[]);
    assert_eq!(eval_plan(&plan, &mut env).unwrap(), 43u64.to_le_bytes());
}

#[test]
fn synthesis_refuses_what_it_cannot_model() {
    let p = prober();
    assert!(synthesize_one(&p, 108, 0, &config()).is_none());
    assert!(synthesize_one(&p, 999, 0, &config()).is_none());
    assert!(discover_keys(&p, 108, 0).unwrap().is_none());
    assert!(discover_keys(&p, 104, 0).unwrap().is_some());
}

#[test]
fn trapping_methods_have_no_key_model() {
    let p = prober();
    assert!(matches!(discover_keys(&p, 999, 0), Ok(None)));
    assert!(matches!(discover_keys(&p, 999, 2), Ok(None)));
    // one that reads no key and answers has an empty one
    assert!(matches!(discover_keys(&p, 102, 0), Ok(Some(m)) if m.keys.is_empty()));
}

#[test]
fn methods_that_answer_in_some_worlds_are_kept() {
    let p = prober();
    for height in [900_000u64, 1_000_000] {
        let oracle = Oracle { height, ..Oracle::default() };
        assert!(matches!(p.run(109, &[], &oracle).unwrap().outcome, Outcome::Trap(_)));
        assert!(matches!(p.run(110, &[], &oracle).unwrap().outcome, Outcome::Trap(_)));
    }
    let oracle = Oracle { height: 1_000_001, ..Oracle::default() };
    assert!(matches!(p.run(109, &[], &oracle).unwrap().outcome, Outcome::Success(b) if b == 1_000_001u64.to_le_bytes()));
    assert!(matches!(discover_keys(&p, 109, 0), Ok(Some(m)) if m.keys.is_empty()));
    assert!(matches!(discover_keys(&p, 110, 0), Ok(Some(m)) if m.keys.len() == 1));
    let plan = synthesize_one(&p, 109, 0, &config()).unwrap();
    assert_eq!(plan.expr, BytesExpr::Le { of: Box::new(NumExpr::Height), width: 8 });
    let plan = synthesize_one(&p, 110, 0, &config()).unwrap();
    assert_eq!(plan.expr, storage(b"/counter"));
    // one that traps on an empty value and on sixteen bytes
    for value in [Vec::new(), vec![1; 16]] {
        let oracle = oracle_with(&[(b"/counter", &value)]);
        assert!(matches!(p.run(111, &[], &oracle).unwrap().outcome, Outcome::Trap(_)));
    }
    let plan = synthesize_one(&p, 111, 0, &config()).unwrap();
    assert_eq!(plan.expr, storage(b"/counter"));
}

#[test]
fn plans_are_attached_to_views() {
    let wasm = contract();
    let mut abi = extract_abi(&wasm).unwrap();
    attach_plans(&mut abi, &wasm, &config()).unwrap();
    assert_eq!(abi.methods[0].plan, Some(Plan { expr: storage(b"/counter"), trials: 16 }));
    assert!(abi.methods[1].plan.is_some());
    assert_eq!(abi.methods[2].kind, MethodKind::Execute);
    assert!(abi.methods[2].plan.is_none());
    let mut other = extract_abi(&wasm).unwrap();
    assert!(matches!(attach_plans(&mut other, b"no wasm", &config()), Err(ProbeError::InvalidWasm(_))));
    assert_eq!(other.to_json(), DOCUMENT);
}

#[test]
fn results_are_reproducible() {
    let wasm = contract();
    assert_eq!(extract_meta_bytes(&wasm), extract_meta_bytes(&wasm));
    let planned = || {
        let mut abi = extract_abi(&wasm).unwrap();
        attach_plans(&mut abi, &wasm, &config()).unwrap();
        abi.to_json()
    };
    assert_eq!(planned(), planned());
    let oracle = Oracle { height: 1_000_001, ..Oracle::default() };
    assert_eq!(prober().run(109, &[], &oracle), prober().run(109, &[], &oracle));
}

#[test]
fn lists_become_loops() {
    let p = prober();
    let plan = try_list_plan(&p, 107, 0, &config()).unwrap();
    assert_eq!(plan.trials, 16);
    let oracle = oracle_with(&[
        (b"/l/length", &2u32.to_le_bytes()),
        (b"/l/0", b"ab"),
        (b"/l/1", b"cde"),
    ]);
    let mut env = OracleEnv::new(&oracle, &[]);
    assert_eq!(eval_plan(&plan, &mut env).unwrap(), b"abcde");
    assert!(try_list_plan(&p, 104, 0, &config()).is_none());
}

/* ─────────────── lifting ─────────────── */

#[test]
fn modules_are_parsed() {
    let m = WasmModule::parse(&contract()).unwrap();
    assert_eq!(m.num_imported_funcs(), 6);
    assert_eq!(m.export("__execute"), Some(7));
    assert_eq!(m.export("missing"), None);
    assert_eq!(m.func_sig(1).unwrap().params.len(), 2);
    assert_eq!(m.func_sig(7).unwrap().results.len(), 1);
    assert!(m.func_sig(8).is_none());
    assert!(matches!(WasmModule::parse(b"no wasm"), Err(ModuleError::Malformed)));
}

#[test]
fn indirect_calls_name_their_type() {
    let body = sized(&[vec![0], i32c(5), i32c(0), vec![0x11, 1, 0, 0x0b]].concat());
    let wasm = [
        b"\0asm\x01\0\0\0".to_vec(),
        section(1, list(&[func_type(&[], &[I32]), func_type(&[I32], &[I32])])),
        section(3, list(&[vec![0]])),
        section(4, list(&[vec![0x70, 0, 1]])),
        section(10, list(&[body])),
    ]
    .concat();
    let m = WasmModule::parse(&wasm).unwrap();
    assert_eq!(m.funcs[0].body, vec![Op::I32Const(5), Op::I32Const(0), Op::CallIndirect(1), Op::End]);
    let (zero, one) = (m.func_sig(0).unwrap(), &m.types[1]);
    assert!(zero.same(&m.types[0]));
    assert!(!zero.same(one));
}

#[test]
fn module_errors_are_told_apart() {
    let parse = |sections: Vec<Vec<u8>>| match WasmModule::parse(&[b"\0asm\x01\0\0\0".to_vec(), sections.concat()].concat()) {
        Ok(_) => None,
        Err(e) => Some(e),
    };
    assert_eq!(parse(vec![]), None);
    // a component is no module, whatever is inside
    let component = [b"\0asm\x0d\0\x01\0".to_vec(), section(1, b"\0asm\x01\0\0\0".to_vec())].concat();
    assert!(matches!(WasmModule::parse(&component), Err(ModuleError::Malformed)));
    assert_eq!(parse(vec![section(2, list(&[import("f", 5)]))]), Some(ModuleError::ImportType));
    let body = section(10, list(&[code(0, vec![])]));
    assert_eq!(parse(vec![body.clone()]), Some(ModuleError::CodeTypeMissing));
    assert_eq!(parse(vec![section(3, list(&[vec![9]])), body]), Some(ModuleError::CodeType));
    let float = vec![0x7d, 0, 0x43, 0, 0, 0, 0, 0x0b];
    assert_eq!(parse(vec![section(6, list(&[float]))]), Some(ModuleError::ConstExpr));
    assert_eq!(parse(vec![section(11, list(&[data(-1, b"ab")]))]), Some(ModuleError::Size));
}

#[test]
fn views_are_lifted() {
    let m = WasmModule::parse(&contract()).unwrap();
    let p = prober();
    let candidates = lift_view(&m, 104, 0);
    assert!(!candidates.is_empty());
    assert!(candidates.iter().any(|(e, w)| verify_lifted(&p, 104, 0, e, 8, 1, w) == Some(8)));
    let (tree, widths) = explore_view(&m, 102, 0).unwrap();
    assert_eq!(tree, BytesExpr::Le { of: Box::new(NumExpr::Height), width: 8 });
    assert_eq!(verify_lifted(&p, 102, 0, &tree, 8, 1, &widths), Some(8));
}

#[test]
fn lifted_numbers_agree_with_the_wasm() {
    let m = WasmModule::parse(&contract()).unwrap();
    let p = prober();
    let (tree, widths) = explore_view(&m, 106, 0).unwrap();
    assert_eq!(verify_lifted(&p, 106, 0, &tree, 8, 3, &widths), Some(8));
}
