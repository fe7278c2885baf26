//! The interpreter, on modules put together operator by operator.

use alkabi::analysis::lift::interp::{Interp, LiftEnv, LiftOutcome, LiftStorage};
use alkabi::analysis::lift::interp_exec::block_structure;
use alkabi::analysis::lift::machine::Fault;
use alkabi::analysis::lift::module::{FuncSig, Function, GlobalDef, ImportedFunc, WasmModule};
use alkabi::analysis::lift::op::{BlockShape, Conversion, IntOp, LoadOp, Op, StoreOp};
use alkabi::analysis::lift::sym::{SymBytes, SymNum};
use alkabi::analysis::response::{response_data, response_data_start, ResponseError};
use alkabi::analysis::synth::Feature;
use alkabi::plan::{BoolExpr, BytesExpr, NumExpr};
use wasmparser::ValType;

/// A storage with one key.
struct Fixed;

impl LiftStorage for Fixed {
    fn read(&self, key: &[u8]) -> Vec<u8> {
        if key == b"/k" {
            (1..=16).collect()
        } else {
            Vec::new()
        }
    }
}

fn sig(params: usize, results: usize) -> FuncSig {
    FuncSig { params: vec![ValType::I32; params], results: vec![ValType::I32; results] }
}

/// The imported functions, by index.
const IMPORTS: [(&str, usize, usize); 9] = [
    ("__request_storage", 1, 1),
    ("__load_storage", 2, 1),
    ("__height", 1, 0),
    ("__request_context", 0, 1),
    ("__load_context", 1, 1),
    ("__log", 1, 0),
    ("abort", 0, 0),
    ("__call", 0, 0),
    ("mystery", 0, 0),
];

const KEY: i32 = 20;
const OUT: i32 = 1024;
const DATA: i32 = OUT + 20;

fn module(body: Vec<Op>) -> WasmModule {
    let mut memory = vec![0u8; 65536];
    memory[16..20].copy_from_slice(&2u32.to_le_bytes());
    memory[20..22].copy_from_slice(b"/k");
    let n = IMPORTS.len() as u32;
    WasmModule {
        types: vec![sig(0, 0), sig(1, 1)],
        imports: IMPORTS
            .iter()
            .map(|(name, p, r)| ImportedFunc { module: "env".to_string(), name: name.to_string(), sig: sig(*p, *r) })
            .collect(),
        funcs: vec![
            Function { sig: sig(0, 1), locals: vec![ValType::I64; 2], body },
            // doubles its argument
            Function { sig: sig(1, 1), locals: Vec::new(), body: vec![Op::LocalGet(0), Op::LocalGet(0), Op::I64(IntOp::Add), Op::End] },
        ],
        globals: vec![GlobalDef { ty: ValType::I64, mutable: true, init: -7 }],
        memory,
        mem_min_pages: 1,
        mem_max_pages: None,
        table: vec![None, Some(n + 1)],
        exports: vec![("__execute".to_string(), n)],
    }
}

struct Ran {
    outcome: LiftOutcome,
    path: Vec<(Option<BoolExpr>, bool)>,
    asked: Option<Vec<u8>>,
}

fn run_with(m: &WasmModule, max_steps: u64, forced: Vec<bool>) -> Ran {
    let env = LiftEnv { context: (0..64).collect(), calldata_off: 32, height: 880_001, storage: &Fixed };
    let mut i = Interp::new(m, &env, max_steps);
    i.set_forced(forced);
    let outcome = i.run_execute();
    let asked = i.last_asked();
    let path = i.take_path().iter().map(|(p, taken)| (p.lower(), *taken)).collect();
    Ran { outcome, path, asked }
}

fn run(body: Vec<Op>) -> LiftOutcome {
    run_with(&module(body), 1000, Vec::new()).outcome
}

fn trap(body: Vec<Op>) -> Fault {
    match run(body) {
        LiftOutcome::Trap(f) => f,
        _ => panic!("no trap"),
    }
}

/// Writes the header of a response with so many bytes of data.
fn header(len: i32) -> Vec<Op> {
    vec![Op::I32Const(OUT - 4), Op::I32Const(20 + len), Op::Store(StoreOp::I32Store, 0)]
}

/// A body whose response is the eight bytes of a value.
fn answer(value: Vec<Op>) -> Vec<Op> {
    let mut body = header(8);
    body.push(Op::I32Const(DATA));
    body.extend(value);
    body.extend([Op::Store(StoreOp::I64Store, 0), Op::I32Const(OUT), Op::End]);
    body
}

fn lowered(outcome: LiftOutcome) -> BytesExpr {
    match outcome {
        LiftOutcome::Data(d) => d.lower().unwrap(),
        LiftOutcome::Trap(f) | LiftOutcome::Unsupported(f) => panic!("{:?}", f),
        LiftOutcome::Disqualified(d) => panic!("{}", d),
    }
}

/// The number that a response of eight constant bytes holds.
fn number(value: Vec<Op>) -> u64 {
    match lowered(run(answer(value))) {
        BytesExpr::Const(b) => u64::from_le_bytes(b.try_into().unwrap()),
        e => panic!("{:?}", e),
    }
}

fn on32(op: IntOp, a: i32, b: i32) -> u64 {
    number(vec![Op::I32Const(a), Op::I32Const(b), Op::I32(op)])
}

fn on64(op: IntOp, a: i64, b: i64) -> u64 {
    number(vec![Op::I64Const(a), Op::I64Const(b), Op::I64(op)])
}

#[test]
fn integers_of_32_bits() {
    assert_eq!(on32(IntOp::Add, -1, 2), 1);
    assert_eq!(on32(IntOp::Sub, 1, 2), 0xffff_ffff);
    assert_eq!(on32(IntOp::Mul, 0x1_0001, 0x1_0001), 0x2_0001);
    assert_eq!(on32(IntOp::DivU, -2, 2), 0x7fff_ffff);
    assert_eq!(on32(IntOp::RemU, -1, 10), 5);
    assert_eq!(on32(IntOp::DivS, -7, 2), (-3i32) as u32 as u64);
    assert_eq!(on32(IntOp::DivS, i32::MIN, 1), 0x8000_0000);
    assert_eq!(on32(IntOp::RemS, -7, 2), (-1i32) as u32 as u64);
    assert_eq!(on32(IntOp::RemS, 7, -2), 1);
    assert_eq!(on32(IntOp::RemS, i32::MIN, -1), 0);
    assert_eq!(on32(IntOp::And, 12, 10), 8);
    assert_eq!(on32(IntOp::Or, 12, 10), 14);
    assert_eq!(on32(IntOp::Xor, 12, 10), 6);
    assert_eq!(on32(IntOp::Shl, 1, 33), 2);
    assert_eq!(on32(IntOp::ShrU, -1, 28), 15);
    assert_eq!(on32(IntOp::ShrS, -16, 2), (-4i32) as u32 as u64);
    assert_eq!(on32(IntOp::Rotl, 0x8000_0001u32 as i32, 4), 0x18);
    assert_eq!(on32(IntOp::Rotr, 0x18, 4), 0x8000_0001);
    assert_eq!(on32(IntOp::LtU, 1, -1), 1);
    assert_eq!(on32(IntOp::LtS, 1, -1), 0);
    assert_eq!(on32(IntOp::GtU, 1, -1), 0);
    assert_eq!(on32(IntOp::GtS, 1, -1), 1);
    assert_eq!(on32(IntOp::LeU, 3, 3), 1);
    assert_eq!(on32(IntOp::LeS, 3, -3), 0);
    assert_eq!(on32(IntOp::GeU, 3, -3), 0);
    assert_eq!(on32(IntOp::GeS, 3, -3), 1);
    assert_eq!(on32(IntOp::Eq, 3, 3), 1);
    assert_eq!(on32(IntOp::Ne, 3, 3), 0);
    assert_eq!(number(vec![Op::I32Const(0), Op::I32(IntOp::Eqz)]), 1);
    assert_eq!(number(vec![Op::I32Const(1), Op::I32(IntOp::Clz)]), 31);
    assert_eq!(number(vec![Op::I32Const(8), Op::I32(IntOp::Ctz)]), 3);
    assert_eq!(number(vec![Op::I32Const(-1), Op::I32(IntOp::Popcnt)]), 32);
}

#[test]
fn integers_of_64_bits() {
    assert_eq!(on64(IntOp::Add, -1, 2), 1);
    assert_eq!(on64(IntOp::Sub, 1, 2), u64::MAX);
    assert_eq!(on64(IntOp::Mul, 1 << 40, 1 << 30), 0);
    assert_eq!(on64(IntOp::DivU, -2, 2), u64::MAX / 2);
    assert_eq!(on64(IntOp::RemU, -1, 10), 5);
    assert_eq!(on64(IntOp::DivS, -7, 2), (-3i64) as u64);
    assert_eq!(on64(IntOp::DivS, 7, -2), (-3i64) as u64);
    assert_eq!(on64(IntOp::DivS, i64::MIN, 1), i64::MIN as u64);
    assert_eq!(on64(IntOp::RemS, -7, 2), (-1i64) as u64);
    assert_eq!(on64(IntOp::RemS, -7, -3), (-1i64) as u64);
    assert_eq!(on64(IntOp::RemS, i64::MIN, -1), 0);
    assert_eq!(on64(IntOp::And, 12, 10), 8);
    assert_eq!(on64(IntOp::Or, 12, 10), 14);
    assert_eq!(on64(IntOp::Xor, 12, 10), 6);
    assert_eq!(on64(IntOp::Shl, 1, 65), 2);
    assert_eq!(on64(IntOp::ShrU, -1, 60), 15);
    assert_eq!(on64(IntOp::ShrS, -16, 2), (-4i64) as u64);
    assert_eq!(on64(IntOp::Rotl, i64::MIN + 1, 4), 0x18);
    assert_eq!(on64(IntOp::Rotr, 0x18, 4), 0x8000_0000_0000_0001);
    assert_eq!(on64(IntOp::LtS, -1, 1), 1);
    assert_eq!(on64(IntOp::LtU, -1, 1), 0);
    assert_eq!(on64(IntOp::GeS, -1, 1), 0);
    assert_eq!(on64(IntOp::GeU, -1, 1), 1);
    assert_eq!(number(vec![Op::I64Const(0), Op::I64(IntOp::Clz)]), 64);
    assert_eq!(number(vec![Op::I64Const(1 << 40), Op::I64(IntOp::Ctz)]), 40);
    assert_eq!(number(vec![Op::I64Const(-1), Op::I64(IntOp::Popcnt)]), 64);
}

#[test]
fn conversions_change_the_width() {
    let convert = |c: Conversion, n: i64| number(vec![Op::I64Const(n), Op::Convert(c)]);
    assert_eq!(convert(Conversion::I32WrapI64, 0x1_0000_0002), 2);
    assert_eq!(convert(Conversion::I64ExtendI32U, 0xffff_ffff), 0xffff_ffff);
    assert_eq!(convert(Conversion::I64ExtendI32S, 0xffff_ffff), u64::MAX);
    assert_eq!(convert(Conversion::I32Extend8S, 0x80), 0xffff_ff80);
    assert_eq!(convert(Conversion::I32Extend16S, 0x8000), 0xffff_8000);
    assert_eq!(convert(Conversion::I64Extend8S, 0x180), (-128i64) as u64);
    assert_eq!(convert(Conversion::I64Extend16S, 0x8000), (-32768i64) as u64);
    assert_eq!(convert(Conversion::I64Extend32S, 0x7fff_ffff), 0x7fff_ffff);
}

#[test]
fn memory_is_read_and_written() {
    let at = |load: LoadOp| {
        number(vec![
            Op::I32Const(100),
            Op::I64Const(0x8182_8384_8586_8788u64 as i64),
            Op::Store(StoreOp::I64Store, 8),
            Op::I32Const(104),
            Op::Load(load, 4),
        ])
    };
    assert_eq!(at(LoadOp::I64Load), 0x8182_8384_8586_8788);
    assert_eq!(at(LoadOp::I32Load), 0x8586_8788);
    assert_eq!(at(LoadOp::I32Load8U), 0x88);
    assert_eq!(at(LoadOp::I64Load8S), (-0x78i64) as u64);
    assert_eq!(at(LoadOp::I64Load16U), 0x8788);
    assert_eq!(at(LoadOp::I64Load16S), 0x8788u16 as i16 as i64 as u64);
    assert_eq!(at(LoadOp::I64Load32S), 0x8586_8788u32 as i32 as i64 as u64);
    assert_eq!(number(vec![Op::MemorySize]), 1);
    assert_eq!(number(vec![Op::I32Const(2), Op::MemoryGrow, Op::Drop, Op::MemorySize]), 3);
    assert_eq!(number(vec![Op::I32Const(2), Op::MemoryGrow]), 1);
    // no more than 32-bit addresses reach, and no more than is declared
    assert_eq!(number(vec![Op::I32Const(-1), Op::MemoryGrow]), 0xffff_ffff);
    let grown = |by: i32, max: u32, then: Vec<Op>| {
        let mut value = vec![Op::I32Const(by), Op::MemoryGrow];
        value.extend(then);
        let mut m = module(answer(value));
        m.mem_max_pages = Some(max);
        lowered(run_with(&m, 1000, Vec::new()).outcome)
    };
    let bytes = |n: u64| BytesExpr::Const(n.to_le_bytes().to_vec());
    assert_eq!(grown(2, 3, vec![]), bytes(1));
    assert_eq!(grown(2, 2, vec![]), bytes(0xffff_ffff));
    assert_eq!(grown(2, 2, vec![Op::Drop, Op::MemorySize]), bytes(1));
    // fill, then copy
    let filled = vec![
        Op::I32Const(200),
        Op::I32Const(7),
        Op::I32Const(3),
        Op::MemoryFill,
        Op::I32Const(301),
        Op::I32Const(200),
        Op::I32Const(4),
        Op::MemoryCopy,
        Op::I32Const(300),
        Op::Load(LoadOp::I64Load, 0),
    ];
    assert_eq!(number(filled), 0x07_0707_00);
}

#[test]
fn control_flow_is_followed() {
    // a loop that counts local 0 up to ten
    let count = vec![
        Op::Block(BlockShape::Empty),
        Op::Loop(BlockShape::Empty),
        Op::LocalGet(0),
        Op::I64Const(10),
        Op::I64(IntOp::Eq),
        Op::BrIf(1),
        Op::LocalGet(0),
        Op::I64Const(1),
        Op::I64(IntOp::Add),
        Op::LocalSet(0),
        Op::Br(0),
        Op::End,
        Op::End,
        Op::LocalGet(0),
    ];
    assert_eq!(number(count), 10);
    let choose = |c: i32| {
        number(vec![
            Op::I32Const(c),
            Op::If(BlockShape::Operand),
            Op::I64Const(5),
            Op::Else,
            Op::I64Const(6),
            Op::End,
        ])
    };
    assert_eq!((choose(1), choose(0)), (5, 6));
    // without an else, a false condition goes on behind the end
    let skipped = |c: i32| vec![Op::I32Const(c), Op::If(BlockShape::Empty), Op::I64Const(1), Op::LocalSet(0), Op::End];
    let with = |c: i32, rest: Vec<Op>| [skipped(c), rest].concat();
    assert_eq!(number(with(0, vec![Op::I64Const(7)])), 7);
    assert_eq!(number(with(0, vec![Op::LocalGet(0)])), 0);
    assert_eq!(number(with(1, vec![Op::LocalGet(0)])), 1);
    // inside a block, it does not leave the block
    let inside = |c: i32| {
        let mut body = vec![Op::Block(BlockShape::Operand)];
        body.extend(skipped(c));
        body.extend([Op::I64Const(8), Op::Br(0), Op::End]);
        number(body)
    };
    assert_eq!((inside(0), inside(1)), (8, 8));
    let table = |i: i32| {
        number(vec![
            Op::Block(BlockShape::Operand),
            Op::Block(BlockShape::Operand),
            Op::I64Const(30),
            Op::I32Const(i),
            Op::BrTable(vec![Some(0), None], 1),
            Op::End,
            Op::I64Const(1),
            Op::I64(IntOp::Add),
            Op::End,
        ])
    };
    assert_eq!((table(0), table(1), table(9)), (31, 30, 30));
    assert_eq!(number(vec![Op::I64Const(4), Op::Call(IMPORTS.len() as u32 + 1)]), 8);
    assert_eq!(number(vec![Op::I64Const(4), Op::I32Const(1), Op::CallIndirect(1)]), 8);
    assert_eq!(number(vec![Op::I64Const(1), Op::I64Const(2), Op::I32Const(0), Op::Select]), 2);
    assert_eq!(number(vec![Op::GlobalGet(0)]), (-7i64) as u64);
    assert_eq!(number(vec![Op::I64Const(9), Op::GlobalSet(0), Op::GlobalGet(0)]), 9);
    assert_eq!(number(vec![Op::Nop, Op::I64Const(3), Op::LocalTee(1), Op::LocalGet(1), Op::I64(IntOp::Add)]), 6);
}

#[test]
fn branches_out_of_all_blocks_return() {
    let leave = |branch: Vec<Op>| {
        let mut body = answer(vec![Op::I64Const(5)]);
        body.pop();
        body.extend(branch);
        body.extend([Op::Unreachable, Op::End]);
        lowered(run(body))
    };
    let five = || BytesExpr::Const(5u64.to_le_bytes().to_vec());
    assert_eq!(leave(vec![Op::Br(0)]), five());
    assert_eq!(leave(vec![Op::I32Const(1), Op::BrIf(0)]), five());
    assert_eq!(leave(vec![Op::I32Const(3), Op::BrTable(vec![], 0)]), five());
    // an `i32.const 0; if; nop; end; i32.const 7; end` comes to its last value
    let m = module(vec![Op::I32Const(0), Op::If(BlockShape::Empty), Op::Nop, Op::End, Op::I32Const(7), Op::End]);
    assert!(matches!(run_with(&m, 100, Vec::new()).outcome, LiftOutcome::Trap(Fault::Response)));
}

#[test]
fn openers_find_their_else_and_end() {
    let body = vec![Op::If(BlockShape::Empty), Op::Block(BlockShape::Empty), Op::End, Op::Else, Op::Nop, Op::End, Op::End];
    let t = block_structure(&body);
    assert_eq!(t.ends, vec![Some(5), Some(2), None, None, None, None, None]);
    assert_eq!(t.elses, vec![Some(3), None, None, None, None, None, None]);
}

#[test]
fn faults_are_told_apart() {
    assert_eq!(trap(vec![Op::Unreachable]), Fault::Unreachable);
    assert_eq!(trap(vec![Op::Drop]), Fault::Underflow);
    assert_eq!(trap(vec![Op::Call(99)]), Fault::CallTarget);
    assert_eq!(trap(vec![Op::I32Const(0), Op::CallIndirect(0)]), Fault::CallTarget);
    assert_eq!(trap(vec![Op::I32Const(9), Op::CallIndirect(0)]), Fault::CallTarget);
    assert_eq!(trap(vec![Op::CallIndirect(1)]), Fault::Underflow);
    assert_eq!(trap(vec![Op::I64Const(4), Op::I32Const(1), Op::CallIndirect(0)]), Fault::CallType);
    assert_eq!(trap(vec![Op::I64Const(4), Op::I32Const(1), Op::CallIndirect(2)]), Fault::Malformed);
    assert_eq!(trap(vec![Op::I32Const(1), Op::I32Const(0), Op::I32(IntOp::DivU)]), Fault::DivisionByZero);
    assert_eq!(trap(vec![Op::I64Const(1), Op::I64Const(0), Op::I64(IntOp::RemU)]), Fault::RemainderByZero);
    assert_eq!(trap(vec![Op::I32Const(65533), Op::Load(LoadOp::I32Load, 0)]), Fault::OutOfBounds);
    assert_eq!(trap(vec![Op::I32Const(1), Op::I32Const(0), Op::I32(IntOp::DivS)]), Fault::DivisionByZero);
    assert_eq!(trap(vec![Op::I64Const(1), Op::I64Const(0), Op::I64(IntOp::DivS)]), Fault::DivisionByZero);
    assert_eq!(
        trap(vec![Op::I32Const(i32::MIN), Op::I32Const(-1), Op::I32(IntOp::DivS)]),
        Fault::QuotientOverflow
    );
    assert_eq!(
        trap(vec![Op::I64Const(i64::MIN), Op::I64Const(-1), Op::I64(IntOp::DivS)]),
        Fault::QuotientOverflow
    );
    assert_eq!(trap(vec![Op::I32Const(1), Op::I32Const(0), Op::I32(IntOp::RemS)]), Fault::RemainderByZero);
    assert_eq!(trap(vec![Op::I64Const(1), Op::I64Const(0), Op::I64(IntOp::RemS)]), Fault::RemainderByZero);
    assert_eq!(trap(vec![Op::Br(1)]), Fault::Malformed);
    assert_eq!(trap(vec![Op::LocalGet(2)]), Fault::Malformed);
    assert_eq!(trap(vec![Op::Block(BlockShape::Empty)]), Fault::Malformed);
    assert_eq!(trap(vec![Op::Call(6)]), Fault::Abort);
    // a response whose transfer count is cut off
    assert_eq!(trap(vec![Op::I32Const(OUT), Op::End]), Fault::Response);
    let endless = vec![Op::Loop(BlockShape::Empty), Op::Br(0), Op::End, Op::End];
    assert!(matches!(run_with(&module(endless), 50, Vec::new()).outcome, LiftOutcome::Trap(Fault::Budget)));
    assert!(matches!(run(vec![Op::Other]), LiftOutcome::Unsupported(Fault::Unsupported)));
    assert!(matches!(run(vec![Op::Block(BlockShape::Func(1)), Op::End]), LiftOutcome::Unsupported(Fault::Unsupported)));
    assert!(matches!(run(vec![Op::Call(7)]), LiftOutcome::Disqualified("extcall")));
    assert!(matches!(run(vec![Op::Call(8)]), LiftOutcome::Disqualified("unknown host import")));
    let mut m = module(vec![Op::End]);
    m.exports = Vec::new();
    assert!(matches!(run_with(&m, 50, Vec::new()).outcome, LiftOutcome::Unsupported(Fault::CallTarget)));
}

fn slot() -> BytesExpr {
    BytesExpr::Storage(Box::new(BytesExpr::Const(b"/k".to_vec())))
}

/// Loads the storage value at the key to an address.
fn load_key(to: i32) -> Vec<Op> {
    vec![Op::I32Const(KEY), Op::Call(0), Op::Drop, Op::I32Const(KEY), Op::I32Const(to), Op::Call(1), Op::Drop]
}

#[test]
fn storage_flows_into_the_response() {
    let mut body = header(16);
    body.extend(load_key(DATA));
    body.extend([Op::I32Const(OUT), Op::End]);
    let ran = run_with(&module(body), 1000, Vec::new());
    assert_eq!(lowered(ran.outcome), slot());
    assert_eq!(ran.asked, Some(b"/k".to_vec()));
    assert!(ran.path.is_empty());
    // the high word of the value, plus one
    let mut high = load_key(400);
    high.extend([Op::I32Const(408), Op::Load(LoadOp::I64Load, 0), Op::I64Const(1), Op::I64(IntOp::Add)]);
    let shifted = NumExpr::Shr(Box::new(NumExpr::ULe(Box::new(slot()))), Box::new(NumExpr::Const(64)));
    let sum = NumExpr::Add(Box::new(shifted), Box::new(NumExpr::Const(1)));
    let masked = NumExpr::And(Box::new(sum), Box::new(NumExpr::Const(u64::MAX as u128)));
    assert_eq!(lowered(run(answer(high))), BytesExpr::Le { of: Box::new(masked), width: 8 });
}

#[test]
fn height_flows_into_the_response() {
    let mut body = header(8);
    body.extend([Op::I32Const(DATA), Op::Call(2), Op::I32Const(OUT), Op::End]);
    assert_eq!(lowered(run(body)), BytesExpr::Le { of: Box::new(NumExpr::Height), width: 8 });
    // stored over, the bytes lose their source
    let stored_over = vec![
        Op::I32Const(400),
        Op::Call(2),
        Op::I32Const(400),
        Op::I64Const(5),
        Op::Store(StoreOp::I64Store, 0),
        Op::I32Const(400),
        Op::Load(LoadOp::I64Load, 0),
    ];
    assert_eq!(number(stored_over), 5);
    // a log does nothing, and the context is as long as it is
    assert_eq!(number(vec![Op::I32Const(0), Op::Call(5), Op::Call(3)]), 64);
    // the context ahead of the calldata is concrete
    let ahead = vec![Op::I32Const(400), Op::Call(4), Op::Drop, Op::I32Const(400), Op::Load(LoadOp::I64Load, 0)];
    assert_eq!(number(ahead), 0x0706_0504_0302_0100);
}

#[test]
fn symbolic_branches_are_recorded_and_forced() {
    let body = || {
        answer(vec![
            Op::I32Const(400),
            Op::Call(2),
            Op::I32Const(400),
            Op::Load(LoadOp::I64Load, 0),
            Op::I64Const(1000),
            Op::I64(IntOp::GtU),
            Op::If(BlockShape::Operand),
            Op::I64Const(1),
            Op::Else,
            Op::I64Const(2),
            Op::End,
        ])
    };
    let above = BoolExpr::Gt(Box::new(NumExpr::Height), Box::new(NumExpr::Const(1000)));
    let ran = run_with(&module(body()), 1000, Vec::new());
    assert_eq!(lowered(ran.outcome), BytesExpr::Const(1u64.to_le_bytes().to_vec()));
    assert_eq!(ran.path, vec![(Some(above), true)]);
    let ran = run_with(&module(body()), 1000, vec![false]);
    assert_eq!(lowered(ran.outcome), BytesExpr::Const(2u64.to_le_bytes().to_vec()));
    assert!(!ran.path[0].1);
}

#[test]
fn symbolic_selections_stay_conditional() {
    let body = answer(vec![
        Op::I32Const(400),
        Op::Call(2),
        Op::I32Const(400),
        Op::Load(LoadOp::I64Load, 0),
        Op::I64Const(3),
        Op::I32Const(400),
        Op::Load(LoadOp::I64Load, 0),
        Op::I64Const(10),
        Op::I64(IntOp::LtU),
        Op::Select,
    ]);
    let ran = run_with(&module(body), 1000, Vec::new());
    let chosen = NumExpr::If {
        cond: Box::new(BoolExpr::Lt(Box::new(NumExpr::Height), Box::new(NumExpr::Const(10)))),
        if_true: Box::new(NumExpr::Height),
        if_false: Box::new(NumExpr::Const(3)),
    };
    assert_eq!(lowered(ran.outcome), BytesExpr::Le { of: Box::new(chosen), width: 8 });
    assert!(ran.path.is_empty());
}

#[test]
fn responses_are_read_from_their_bytes() {
    let zero = |n: usize| vec![0u8; n];
    let count = |n: u128| n.to_le_bytes().to_vec();
    let word = |n: u32| n.to_le_bytes().to_vec();
    assert_eq!(response_data_start(&zero(15)), Err(ResponseError::Truncated));
    assert_eq!(response_data_start(&[count(4097), zero(100)].concat()), Err(ResponseError::TransferCount(4097)));
    assert_eq!(response_data_start(&[count(1), zero(51)].concat()), Err(ResponseError::StorageMap));
    assert_eq!(response_data_start(&[count(0), word(1), word(0), zero(3)].concat()), Err(ResponseError::StorageEntry));
    assert_eq!(response_data_start(&[count(0), word(1), word(1), zero(1), word(5), zero(4)].concat()), Err(ResponseError::End));
    let full = [count(1), zero(48), word(1), word(1), zero(1), word(2), zero(2), b"data".to_vec()].concat();
    assert_eq!(response_data_start(&full), Ok(full.len() - 4));
    assert_eq!(response_data(&full), Ok(b"data".to_vec()));
}

#[test]
fn copies_are_equal() {
    let sym = SymBytes::Concat(vec![
        SymBytes::Const(b"/k".to_vec()).rc(),
        SymBytes::Le { of: SymNum::Add(SymNum::Height.rc(), SymNum::Const(1).rc()).rc(), width: 8 }.rc(),
    ]);
    assert_eq!(sym.clone(), sym);
    let num = SymNum::ULe(sym.rc());
    assert_eq!(num.clone(), num);
    let feature = Feature { name: "h".to_string(), expr: NumExpr::Height };
    assert_eq!((feature.clone().name, feature.clone().expr), (feature.name, feature.expr));
}
