//! The meaning of the operators: a wasm machine whose values carry symbolic tags.
use vstd::prelude::*;
use crate::analysis::lift::module::{ModuleModel, PAGE};
use crate::analysis::lift::op::{BlockShape, Conversion, IntOp, LoadOp, Op, StoreOp};
use crate::analysis::lift::tags::Prov;
use crate::analysis::lift::{module, sym, tags};
use crate::analysis::response;
use crate::bytes;
use crate::plan::term;
use crate::plan::{BoolTerm, BytesTerm, Comparison, NumOp, NumTerm};

verus! {

/// Why a run stopped without a result.
#[derive(Debug, Clone, Copy, PartialEq, Eq, Structural)]
pub enum Fault {
    Unreachable,
    /// The value stack is too short.
    Underflow,
    /// The step budget is used up.
    Budget,
    /// A call to a function that is not there.
    CallTarget,
    /// A call through the table to a function of another type.
    CallType,
    DivisionByZero,
    RemainderByZero,
    /// A signed quotient that is too large for its width.
    QuotientOverflow,
    OutOfBounds,
    /// An operator or a block that the interpreter does not know.
    Unsupported,
    /// A host function that a plan cannot model.
    Disqualified,
    /// The contract called `abort`.
    Abort,
    /// The code breaks a rule that valid modules keep.
    Malformed,
    /// The response cannot be read.
    Response,
}

/// Cap on recorded branch predicates: guards against a symbolic byte-validation
/// loop flooding the trace; real view divergences sit well under this.
pub const MAX_PATH: usize = 64;

/// The pages that 32-bit addresses reach.
pub const MAX_PAGES: u32 = 65536;

/// A runtime value.
pub struct Datum {
    /// Concrete bits (i32 held in the low 32).
    pub c: u64,
    /// Symbolic numeric tag, if derived from storage/height/calldata.
    pub s: Option<NumTerm>,
    /// Symbolic boolean tag (comparison results), for select/branch capture.
    pub b: Option<BoolTerm>,
}

/// One entry per structural control block, for branch resolution.
#[derive(Debug, Clone, Copy, PartialEq, Eq, Structural)]
pub struct Ctrl {
    /// operator index of the matching `end`
    pub end: usize,
    /// for `loop`, the index to jump back to on branch; else just past `end`
    pub cont: usize,
    /// number of result values the label carries
    pub arity: usize,
    /// value-stack height at block entry
    pub height: usize,
    pub is_loop: bool,
}

/// What a run is set up with, and does not change.
pub struct Setup {
    pub module: ModuleModel,
    pub context: Seq<u8>,
    /// byte offset in `context` where the post-opcode input words begin
    pub calldata_off: usize,
    pub height: u64,
    pub storage: spec_fn(Seq<u8>) -> Seq<u8>,
    pub max_steps: u64,
    /// Forced directions for symbolic branches, by index.
    pub forced: Seq<bool>,
}

/// What a run changes.
pub struct Machine {
    pub mem: Seq<u8>,
    pub tags: Map<int, Prov>,
    pub globals: Seq<i64>,
    /// key remembered between `__request_storage` and `__load_storage`
    pub pending: Option<BytesTerm>,
    pub disq: Option<&'static str>,
    /// Symbolic control-flow branches taken, in order.
    pub path: Seq<(BoolTerm, bool)>,
    /// Storage keys asked for, in order.
    pub asked: Seq<Seq<u8>>,
}

/// A function under execution.
pub struct Frame {
    pub locals: Seq<Datum>,
    pub stack: Seq<Datum>,
    pub blocks: Seq<Ctrl>,
    pub pc: int,
}

/// What an operator leads to.
pub enum Flow {
    Next(Frame),
    Return(Seq<Datum>),
    /// Call a function with arguments, then go on in the frame.
    Call(u32, Seq<Datum>, Frame),
}

/*──────────────────────── values ────────────────────────*/

pub open spec fn con(c: u64) -> Datum {
    Datum { c, s: None, b: None }
}

pub open spec fn num(c: u64, s: Option<NumTerm>) -> Datum {
    Datum { c, s, b: None }
}

pub open spec fn boolean(c: u64, b: Option<BoolTerm>) -> Datum {
    Datum { c, s: None, b }
}

/// The value's symbolic number. A comparison result consumed as a number stays
/// symbolic, as one or zero by its condition; an untagged value is a constant.
pub open spec fn as_sym(v: Datum) -> NumTerm {
    match v.s {
        Some(s) => s,
        None => match v.b {
            Some(b) => NumTerm::If {
                cond: Box::new(b),
                if_true: Box::new(NumTerm::Const(1)),
                if_false: Box::new(NumTerm::Const(0)),
            },
            None => NumTerm::Const(v.c as u128),
        },
    }
}

pub open spec fn is_symbolic(v: Datum) -> bool {
    v.s is Some || v.b is Some
}

/// The tag of a binary operation: none if neither operand is symbolic.
pub open spec fn op_tag(op: NumOp, a: Datum, b: Datum) -> Option<NumTerm> {
    if is_symbolic(a) || is_symbolic(b) {
        Some(term::op_term(op, as_sym(a), as_sym(b)))
    } else {
        None
    }
}

/// A tag cut down to the width of its type.
pub open spec fn masked(s: Option<NumTerm>, mask: u128) -> Option<NumTerm> {
    match s {
        Some(s) => Some(term::op_term(NumOp::And, s, NumTerm::Const(mask))),
        None => None,
    }
}

/// The tag of a comparison: none unless an operand is a symbolic number.
pub open spec fn compare_tag(c: Comparison, a: Datum, b: Datum) -> Option<BoolTerm> {
    if a.s is Some || b.s is Some {
        Some(term::holds_term(c, as_sym(a), as_sym(b)))
    } else {
        None
    }
}

/// The tag of a test against zero.
pub open spec fn zero_tag(c: Comparison, s: Option<NumTerm>) -> Option<BoolTerm> {
    match s {
        Some(s) => Some(term::holds_term(c, s, NumTerm::Const(0))),
        None => None,
    }
}

/// The condition that a branch or a selection on a value depends on.
pub open spec fn condition(v: Datum) -> Option<BoolTerm> {
    match v.b {
        Some(b) => Some(b),
        None => zero_tag(Comparison::Ne, v.s),
    }
}

/// Whether a concrete condition holds.
pub open spec fn holds(v: Datum) -> bool {
    (v.c as u32) != 0
}

/*──────────────────────── integers ────────────────────────*/

pub open spec fn magnitude(x: int) -> int {
    if x < 0 { -x } else { x }
}

/// The quotient of two integers, rounded towards zero.
pub open spec fn quotient(x: int, d: int) -> int {
    if (x < 0) == (d < 0) {
        magnitude(x) / magnitude(d)
    } else {
        -(magnitude(x) / magnitude(d))
    }
}

/// The remainder of that division: it has the sign of the dividend.
pub open spec fn remainder(x: int, d: int) -> int {
    if x < 0 {
        -(magnitude(x) % magnitude(d))
    } else {
        x % magnitude(d)
    }
}

/// The number of one bits.
pub open spec fn ones(n: int) -> int
    decreases n,
{
    if n <= 0 { 0 } else { n % 2 + ones(n / 2) }
}

pub open spec fn rotl32(a: u32, b: u32) -> u32 {
    let k = b % 32;
    if k == 0 { a } else { (a << k) | (a >> ((32 - k) as u32)) }
}

pub open spec fn rotr32(a: u32, b: u32) -> u32 {
    let k = b % 32;
    if k == 0 { a } else { (a >> k) | (a << ((32 - k) as u32)) }
}

pub open spec fn rotl64(a: u64, b: u64) -> u64 {
    let k = b % 64;
    if k == 0 { a } else { (a << k) | (a >> ((64 - k) as u64)) }
}

pub open spec fn rotr64(a: u64, b: u64) -> u64 {
    let k = b % 64;
    if k == 0 { a } else { (a >> k) | (a << ((64 - k) as u64)) }
}

/// The bits of a 32-bit operation. A signed quotient that is too large is a fault; tests
/// and counts ignore the second operand where they have none.
pub open spec fn int32(op: IntOp, a: u32, b: u32) -> Result<u32, Fault> {
    let (x, y) = (a as i32, b as i32);
    match op {
        IntOp::Add => Ok(a.wrapping_add(b)),
        IntOp::Sub => Ok(a.wrapping_sub(b)),
        IntOp::Mul => Ok(a.wrapping_mul(b)),
        IntOp::DivU => if b == 0 { Err(Fault::DivisionByZero) } else { Ok(a / b) },
        IntOp::RemU => if b == 0 { Err(Fault::RemainderByZero) } else { Ok(a % b) },
        IntOp::DivS => if y == 0 {
            Err(Fault::DivisionByZero)
        } else if quotient(x as int, y as int) > i32::MAX {
            Err(Fault::QuotientOverflow)
        } else {
            Ok((quotient(x as int, y as int) as i32) as u32)
        },
        IntOp::RemS => if y == 0 {
            Err(Fault::RemainderByZero)
        } else {
            Ok((remainder(x as int, y as int) as i32) as u32)
        },
        IntOp::And => Ok(a & b),
        IntOp::Or => Ok(a | b),
        IntOp::Xor => Ok(a ^ b),
        IntOp::Shl => Ok(a.wrapping_shl(b)),
        IntOp::ShrU => Ok(a.wrapping_shr(b)),
        IntOp::ShrS => Ok(x.wrapping_shr(b) as u32),
        IntOp::Rotl => Ok(rotl32(a, b)),
        IntOp::Rotr => Ok(rotr32(a, b)),
        IntOp::Eqz => Ok(if a == 0 { 1 } else { 0 }),
        IntOp::Eq => Ok(if a == b { 1 } else { 0 }),
        IntOp::Ne => Ok(if a != b { 1 } else { 0 }),
        IntOp::LtU => Ok(if a < b { 1 } else { 0 }),
        IntOp::LtS => Ok(if x < y { 1 } else { 0 }),
        IntOp::GtU => Ok(if a > b { 1 } else { 0 }),
        IntOp::GtS => Ok(if x > y { 1 } else { 0 }),
        IntOp::LeU => Ok(if a <= b { 1 } else { 0 }),
        IntOp::LeS => Ok(if x <= y { 1 } else { 0 }),
        IntOp::GeU => Ok(if a >= b { 1 } else { 0 }),
        IntOp::GeS => Ok(if x >= y { 1 } else { 0 }),
        IntOp::Clz => Ok(vstd::std_specs::bits::u32_leading_zeros(a) as u32),
        IntOp::Ctz => Ok(vstd::std_specs::bits::u32_trailing_zeros(a) as u32),
        IntOp::Popcnt => Ok(ones(a as int) as u32),
    }
}

/// The bits of a 64-bit operation. A signed quotient that is too large is a fault.
pub open spec fn int64(op: IntOp, a: u64, b: u64) -> Result<u64, Fault> {
    let (x, y) = (a as i64, b as i64);
    match op {
        IntOp::Add => Ok(a.wrapping_add(b)),
        IntOp::Sub => Ok(a.wrapping_sub(b)),
        IntOp::Mul => Ok(a.wrapping_mul(b)),
        IntOp::DivU => if b == 0 { Err(Fault::DivisionByZero) } else { Ok(a / b) },
        IntOp::RemU => if b == 0 { Err(Fault::RemainderByZero) } else { Ok(a % b) },
        IntOp::DivS => if y == 0 {
            Err(Fault::DivisionByZero)
        } else if quotient(x as int, y as int) > i64::MAX {
            Err(Fault::QuotientOverflow)
        } else {
            Ok((quotient(x as int, y as int) as i64) as u64)
        },
        IntOp::RemS => if y == 0 {
            Err(Fault::RemainderByZero)
        } else {
            Ok((remainder(x as int, y as int) as i64) as u64)
        },
        IntOp::And => Ok(a & b),
        IntOp::Or => Ok(a | b),
        IntOp::Xor => Ok(a ^ b),
        IntOp::Shl => Ok(a.wrapping_shl(b as u32)),
        IntOp::ShrU => Ok(a.wrapping_shr(b as u32)),
        IntOp::ShrS => Ok(x.wrapping_shr(b as u32) as u64),
        IntOp::Rotl => Ok(rotl64(a, b)),
        IntOp::Rotr => Ok(rotr64(a, b)),
        IntOp::Eqz => Ok(if a == 0 { 1 } else { 0 }),
        IntOp::Eq => Ok(if a == b { 1 } else { 0 }),
        IntOp::Ne => Ok(if a != b { 1 } else { 0 }),
        IntOp::LtU => Ok(if a < b { 1 } else { 0 }),
        IntOp::LtS => Ok(if x < y { 1 } else { 0 }),
        IntOp::GtU => Ok(if a > b { 1 } else { 0 }),
        IntOp::GtS => Ok(if x > y { 1 } else { 0 }),
        IntOp::LeU => Ok(if a <= b { 1 } else { 0 }),
        IntOp::LeS => Ok(if x <= y { 1 } else { 0 }),
        IntOp::GeU => Ok(if a >= b { 1 } else { 0 }),
        IntOp::GeS => Ok(if x >= y { 1 } else { 0 }),
        IntOp::Clz => Ok(vstd::std_specs::bits::u64_leading_zeros(a) as u64),
        IntOp::Ctz => Ok(vstd::std_specs::bits::u64_trailing_zeros(a) as u64),
        IntOp::Popcnt => Ok(ones(a as int) as u64),
    }
}

/// The bits of an operation of either width.
pub open spec fn int_bits(op: IntOp, wide: bool, a: u64, b: u64) -> Result<u64, Fault> {
    if wide {
        int64(op, a, b)
    } else {
        match int32(op, a as u32, b as u32) {
            Ok(c) => Ok(c as u64),
            Err(f) => Err(f),
        }
    }
}

/// Whether an operation takes one operand.
pub open spec fn is_unary(op: IntOp) -> bool {
    op is Eqz || op is Clz || op is Ctz || op is Popcnt
}

/// The result of an operation that went well: tags flow through unsigned
/// arithmetic and unsigned comparisons. Sums, differences, products and left
/// shifts wrap at the type's width, so their tags do too.
pub open spec fn int_tagged(op: IntOp, wide: bool, c: u64, a: Datum, b: Datum) -> Datum {
    let mask: u128 = if wide { 0xffff_ffff_ffff_ffff } else { 0xffff_ffff };
    match op {
        IntOp::Add => num(c, masked(op_tag(NumOp::Add, a, b), mask)),
        IntOp::Sub => num(c, masked(op_tag(NumOp::Sub, a, b), mask)),
        IntOp::Mul => num(c, masked(op_tag(NumOp::Mul, a, b), mask)),
        IntOp::Shl => num(c, masked(op_tag(NumOp::Shl, a, b), mask)),
        IntOp::DivU => num(c, op_tag(NumOp::Div, a, b)),
        IntOp::RemU => num(c, op_tag(NumOp::Mod, a, b)),
        IntOp::And => num(c, op_tag(NumOp::And, a, b)),
        IntOp::Or => num(c, op_tag(NumOp::Or, a, b)),
        IntOp::Xor => num(c, op_tag(NumOp::Xor, a, b)),
        IntOp::ShrU => num(c, op_tag(NumOp::Shr, a, b)),
        IntOp::Eqz => boolean(c, zero_tag(Comparison::Eq, a.s)),
        IntOp::Eq => boolean(c, compare_tag(Comparison::Eq, a, b)),
        IntOp::Ne => boolean(c, compare_tag(Comparison::Ne, a, b)),
        IntOp::LtU => boolean(c, compare_tag(Comparison::Lt, a, b)),
        IntOp::GtU => boolean(c, compare_tag(Comparison::Gt, a, b)),
        IntOp::LeU => boolean(c, compare_tag(Comparison::Lte, a, b)),
        IntOp::GeU => boolean(c, compare_tag(Comparison::Gte, a, b)),
        _ => con(c),
    }
}

/// A change of width. Those that keep the number keep its numeric tag.
pub open spec fn converted(k: Conversion, a: Datum) -> Datum {
    match k {
        Conversion::I32WrapI64 => num(a.c as u32 as u64, a.s),
        Conversion::I64ExtendI32U => num(a.c as u32 as u64, a.s),
        Conversion::I64ExtendI32S => num((a.c as u32 as i32 as i64) as u64, a.s),
        Conversion::I32Extend8S => con((a.c as u8 as i8 as i32 as u32) as u64),
        Conversion::I32Extend16S => con((a.c as u16 as i16 as i32 as u32) as u64),
        Conversion::I64Extend8S => con((a.c as u8 as i8 as i64) as u64),
        Conversion::I64Extend16S => con((a.c as u16 as i16 as i64) as u64),
        Conversion::I64Extend32S => con((a.c as u32 as i32 as i64) as u64),
    }
}

/// What an integer operation or a conversion does to the value stack; `None` for
/// every other operator.
pub open spec fn numeric(op: Op, vs: Seq<Datum>) -> Option<Result<Seq<Datum>, Fault>> {
    match op {
        Op::I32(k) => Some(int_stack(k, false, vs)),
        Op::I64(k) => Some(int_stack(k, true, vs)),
        Op::Convert(k) => Some(
            if vs.len() < 1 {
                Err(Fault::Underflow)
            } else {
                Ok(vs.drop_last().push(converted(k, vs.last())))
            },
        ),
        _ => None,
    }
}

pub open spec fn int_stack(k: IntOp, wide: bool, vs: Seq<Datum>) -> Result<Seq<Datum>, Fault> {
    if is_unary(k) {
        if vs.len() < 1 {
            Err(Fault::Underflow)
        } else {
            let a = vs.last();
            match int_bits(k, wide, a.c, 0) {
                Err(f) => Err(f),
                Ok(c) => Ok(vs.drop_last().push(int_tagged(k, wide, c, a, con(0)))),
            }
        }
    } else if vs.len() < 2 {
        Err(Fault::Underflow)
    } else {
        let b = vs.last();
        let a = vs[vs.len() - 2];
        match int_bits(k, wide, a.c, b.c) {
            Err(f) => Err(f),
            Ok(c) => Ok(vs.drop_last().drop_last().push(int_tagged(k, wide, c, a, b))),
        }
    }
}

/*──────────────────────── memory ────────────────────────*/

/// The memory with `data` written at `at`.
pub open spec fn written(mem: Seq<u8>, at: int, data: Seq<u8>) -> Seq<u8> {
    Seq::new(mem.len(), |i: int| if at <= i < at + data.len() { data[i - at] } else { mem[i] })
}

/// The machine with `data` written at `at`: those bytes lose their provenance.
pub open spec fn with_bytes(st: Machine, at: int, data: Seq<u8>) -> Machine {
    Machine { mem: written(st.mem, at, data), tags: tags::cleared(st.tags, at, data.len() as int), ..st }
}

/// Whether `n` bytes at `at` lie in memory.
pub open spec fn in_memory(mem: Seq<u8>, at: int, n: int) -> bool {
    at + n <= mem.len()
}

/// How many bytes a load reads, and whether it extends the sign.
pub open spec fn load_shape(k: LoadOp) -> (int, bool) {
    match k {
        LoadOp::I32Load => (4, false),
        LoadOp::I32Load8U => (1, false),
        LoadOp::I32Load8S => (1, true),
        LoadOp::I32Load16U => (2, false),
        LoadOp::I32Load16S => (2, true),
        LoadOp::I64Load => (8, false),
        LoadOp::I64Load8U => (1, false),
        LoadOp::I64Load8S => (1, true),
        LoadOp::I64Load16U => (2, false),
        LoadOp::I64Load16S => (2, true),
        LoadOp::I64Load32U => (4, false),
        LoadOp::I64Load32S => (4, true),
    }
}

/// How many bytes a store writes.
pub open spec fn store_width(k: StoreOp) -> int {
    match k {
        StoreOp::I32Store => 4,
        StoreOp::I32Store8 => 1,
        StoreOp::I32Store16 => 2,
        StoreOp::I64Store => 8,
        StoreOp::I64Store8 => 1,
        StoreOp::I64Store16 => 2,
        StoreOp::I64Store32 => 4,
    }
}

/// The largest number of `width` bytes.
pub open spec fn width_mask(width: int) -> u128 {
    if width == 1 {
        0xff
    } else if width == 2 {
        0xffff
    } else if width == 4 {
        0xffff_ffff
    } else {
        0xffff_ffff_ffff_ffff
    }
}

/// Whether the byte `k` past `addr` continues the source of the byte at `addr`.
pub open spec fn continues(ts: Map<int, Prov>, addr: int, k: int) -> bool {
    ts.contains_key(addr + k) && ts[addr + k].stamp == ts[addr].stamp && ts[addr + k].index == ts[addr].index + k
}

/// The symbolic number that `width` bytes at `addr` hold, if they are a run of
/// consecutive bytes of one source that has a number: the source's number shifted
/// down to the first byte, and masked if the source goes on behind the last.
pub open spec fn recovered_num(ts: Map<int, Prov>, addr: int, width: int) -> Option<NumTerm> {
    if !ts.contains_key(addr) || !(forall|j: int| 1 <= j < width ==> #[trigger] continues(ts, addr, j)) {
        None
    } else {
        let start = ts[addr].index;
        let more = continues(ts, addr, width);
        let full = match ts[addr].src {
            BytesTerm::Le { of, width: w } => Some(*of),
            BytesTerm::Storage(_) => Some(NumTerm::ULe(Box::new(ts[addr].src))),
            _ => None,
        };
        match full {
            None => None,
            Some(full) => {
                let shifted = if start == 0 {
                    full
                } else {
                    term::op_term(NumOp::Shr, full, NumTerm::Const((start * 8) as u128))
                };
                if ts[addr].src matches BytesTerm::Le { of, width: w } && start == 0 && w == width && !more {
                    Some(full)
                } else if more {
                    Some(term::op_term(NumOp::And, shifted, NumTerm::Const(width_mask(width))))
                } else {
                    Some(shifted)
                }
            }
        }
    }
}

/// The bits that a load reads.
pub open spec fn load_bits(b: Seq<u8>, signed: bool) -> u64 {
    let c = bytes::le_num(b) as u64;
    if signed {
        let shift = (64 - 8 * b.len()) as u64;
        (((c << shift) as i64) >> shift) as u64
    } else {
        c
    }
}

pub open spec fn loaded(st: Machine, k: LoadOp, offset: u64, vs: Seq<Datum>) -> Result<Seq<Datum>, Fault> {
    if vs.len() < 1 {
        Err(Fault::Underflow)
    } else {
        let (width, signed) = load_shape(k);
        let a = vs.last().c + offset;
        if !in_memory(st.mem, a, width) {
            Err(Fault::OutOfBounds)
        } else {
            let c = load_bits(st.mem.subrange(a, a + width), signed);
            Ok(vs.drop_last().push(num(c, recovered_num(st.tags, a, width))))
        }
    }
}

/// A store: the low bytes of the value, tagged as its little-endian decomposition
/// if the value is a symbolic number.
pub open spec fn stored(st: Machine, now: u64, k: StoreOp, offset: u64, vs: Seq<Datum>) -> (Machine, Result<Seq<Datum>, Fault>) {
    if vs.len() < 2 {
        (st, Err(Fault::Underflow))
    } else {
        let width = store_width(k);
        let v = vs.last();
        let a = vs[vs.len() - 2].c + offset;
        if !in_memory(st.mem, a, width) {
            (st, Err(Fault::OutOfBounds))
        } else {
            let st = with_bytes(st, a, bytes::le_bytes(v.c as int, width as nat));
            let st = match v.s {
                Some(s) => Machine {
                    tags: tags::tagged(
                        st.tags,
                        a,
                        width,
                        BytesTerm::Le { of: Box::new(s), width: width as u8 },
                        (now, 0),
                    ),
                    ..st
                },
                None => st,
            };
            (st, Ok(vs.drop_last().drop_last()))
        }
    }
}

/// How many pages a memory may have: as many as it declares, and no more than 32-bit
/// addresses reach.
pub open spec fn page_limit(max: Option<u32>) -> int {
    match max {
        Some(max) => if max < MAX_PAGES { max as int } else { MAX_PAGES as int },
        None => MAX_PAGES as int,
    }
}

/// What the operations on the whole memory do. A memory that cannot grow stays as it
/// is, and the operation gives -1.
pub open spec fn memory_flow(cx: Setup, st: Machine, op: Op, vs: Seq<Datum>) -> (Machine, Result<Seq<Datum>, Fault>) {
    match op {
        Op::MemorySize => (st, Ok(vs.push(con((st.mem.len() / PAGE as nat) as u64)))),
        Op::MemoryGrow => if vs.len() < 1 {
            (st, Err(Fault::Underflow))
        } else {
            let pages = (st.mem.len() / PAGE as nat) as int;
            let size = st.mem.len() + vs.last().c * PAGE;
            if pages + vs.last().c > page_limit(cx.module.max_pages) || size > usize::MAX {
                (st, Ok(vs.drop_last().push(con(0xffff_ffff))))
            } else {
                (
                    Machine { mem: st.mem + module::zeros(size - st.mem.len()), ..st },
                    Ok(vs.drop_last().push(con(pages as u64))),
                )
            }
        },
        Op::MemoryCopy => if vs.len() < 3 {
            (st, Err(Fault::Underflow))
        } else {
            let n = vs.last().c as usize as int;
            let src = vs[vs.len() - 2].c as usize as int;
            let dst = vs[vs.len() - 3].c as usize as int;
            if !in_memory(st.mem, src, n) || !in_memory(st.mem, dst, n) {
                (st, Err(Fault::OutOfBounds))
            } else {
                (
                    Machine {
                        mem: written(st.mem, dst, st.mem.subrange(src, src + n)),
                        tags: tags::carried(st.tags, src, dst, n),
                        ..st
                    },
                    Ok(vs.take(vs.len() - 3)),
                )
            }
        },
        _ => if vs.len() < 3 {
            (st, Err(Fault::Underflow))
        } else {
            let n = vs.last().c as usize as int;
            let v = vs[vs.len() - 2].c as u8;
            let dst = vs[vs.len() - 3].c as usize as int;
            if !in_memory(st.mem, dst, n) {
                (st, Err(Fault::OutOfBounds))
            } else {
                (with_bytes(st, dst, Seq::new(n as nat, |i: int| v)), Ok(vs.take(vs.len() - 3)))
            }
        },
    }
}

/*──────────────────────── reading memory back ────────────────────────*/

/// The buffer at `ptr` (its length is the u32 LE at `ptr - 4`), as far as memory
/// reaches.
pub open spec fn buffer(mem: Seq<u8>, ptr: u32) -> Seq<u8> {
    if ptr < 4 || ptr > mem.len() {
        Seq::empty()
    } else {
        let end = ptr + response::num_at(mem, ptr - 4, 4);
        mem.subrange(ptr as int, if end < mem.len() { end } else { mem.len() as int })
    }
}

/// How far, up to `max`, the bytes from `addr` on continue one source, given that
/// `k` do.
pub open spec fn source_run(ts: Map<int, Prov>, addr: int, k: int, max: int) -> int
    decreases max - k,
{
    if k < max && continues(ts, addr, k) {
        source_run(ts, addr, k + 1, max)
    } else {
        k
    }
}

/// How far, up to `max`, the bytes from `addr` on are untagged, given that `k` are.
pub open spec fn plain_run(ts: Map<int, Prov>, addr: int, k: int, max: int) -> int
    decreases max - k,
{
    if k < max && !ts.contains_key(addr + k) {
        plain_run(ts, addr, k + 1, max)
    } else {
        k
    }
}

pub proof fn lemma_source_run(ts: Map<int, Prov>, addr: int, k: int, max: int)
    requires
        k <= max,
    ensures
        k <= source_run(ts, addr, k, max) <= max,
    decreases max - k,
{
    if k < max && continues(ts, addr, k) {
        lemma_source_run(ts, addr, k + 1, max);
    }
}

pub proof fn lemma_plain_run(ts: Map<int, Prov>, addr: int, k: int, max: int)
    requires
        k <= max,
    ensures
        k <= plain_run(ts, addr, k, max) <= max,
    decreases max - k,
{
    if k < max && !ts.contains_key(addr + k) {
        lemma_plain_run(ts, addr, k + 1, max);
    }
}

/// The sources of the bytes `addr + i .. addr + len`, run by run: a run that starts
/// at its source's first byte is that source; every other is its concrete bytes.
pub open spec fn source_parts(st: Machine, addr: int, i: int, len: int) -> Seq<BytesTerm>
    decreases len - i,
{
    if i >= len {
        Seq::empty()
    } else if st.tags.contains_key(addr + i) {
        proof {
            lemma_source_run(st.tags, addr + i, 1, len - i);
        }
        let run = source_run(st.tags, addr + i, 1, len - i);
        let p = st.tags[addr + i];
        seq![
            if p.index == 0 { p.src } else { BytesTerm::Const(st.mem.subrange(addr + i, addr + i + run)) },
        ] + source_parts(st, addr, i + run, len)
    } else {
        proof {
            lemma_plain_run(st.tags, addr + i, 1, len - i);
        }
        let run = plain_run(st.tags, addr + i, 1, len - i);
        seq![BytesTerm::Const(st.mem.subrange(addr + i, addr + i + run))] + source_parts(st, addr, i + run, len)
    }
}

/// The symbolic bytes at `addr .. addr + len`.
pub open spec fn recovered_bytes(st: Machine, addr: int, len: int) -> BytesTerm {
    sym::concat_of(sym::merged(sym::flat(source_parts(st, addr, 0, len))))
}

/// The symbolic bytes of the buffer at `ptr`.
pub open spec fn recovered_key(st: Machine, ptr: u32) -> BytesTerm {
    recovered_bytes(st, ptr as int, buffer(st.mem, ptr).len() as int)
}

/// The symbolic data of the response whose buffer is at `ptr`.
pub open spec fn response_term(st: Machine, ptr: u32) -> Option<BytesTerm> {
    let b = buffer(st.mem, ptr);
    match response::data_start(b) {
        Err(_) => None,
        Ok(p) => Some(recovered_bytes(st, ptr + p, b.len() - p)),
    }
}

/*──────────────────────── host functions ────────────────────────*/

/// The tags after the context was copied to `ptr`: each byte past the opcode is a
/// calldata byte, with a source of its own.
pub open spec fn calldata_tags(ts: Map<int, Prov>, at: int, n: int, now: u64) -> Map<int, Prov> {
    Map::new(
        |k: int| ts.contains_key(k) || at <= k < at + n,
        |k: int| if at <= k < at + n {
            Prov {
                src: BytesTerm::Calldata { start: 0, len: None },
                index: (k - at) as u32,
                stamp: (now, (k - at) as u32),
            }
        } else {
            ts[k]
        },
    )
}

/// Why a host function other than the modeled ones disqualifies a view.
pub open spec fn disqualifier(name: Seq<char>) -> &'static str {
    if name == "__call"@ || name == "__staticcall"@ || name == "__delegatecall"@ {
        "extcall"
    } else if name == "__request_transaction"@ || name == "__load_transaction"@ {
        "transaction"
    } else if name == "__request_block"@ || name == "__load_block"@ {
        "block"
    } else if name == "__balance"@ {
        "__balance"
    } else if name == "__sequence"@ {
        "__sequence"
    } else if name == "__returndatacopy"@ {
        "__returndatacopy"
    } else {
        "unknown host import"
    }
}

/// What a host function does.
pub open spec fn host_called(
    cx: Setup,
    st: Machine,
    now: u64,
    name: Seq<char>,
    args: Seq<Datum>,
) -> (Machine, Result<Seq<Datum>, Fault>) {
    if name == "__request_context"@ {
        (st, Ok(seq![con(cx.context.len() as u64)]))
    } else if name == "__load_context"@ {
        if args.len() < 1 {
            (st, Err(Fault::Malformed))
        } else {
            let ptr = args[0].c as u32 as int;
            let n = cx.context.len() as int;
            if !in_memory(st.mem, ptr, n) {
                (st, Err(Fault::OutOfBounds))
            } else {
                let st = with_bytes(st, ptr, cx.context);
                let off = cx.calldata_off as u32 as int;
                let st = if off < n {
                    Machine { tags: calldata_tags(st.tags, ptr + off, n - off, now), ..st }
                } else {
                    st
                };
                (st, Ok(seq![con(n as u64)]))
            }
        }
    } else if name == "__request_storage"@ {
        if args.len() < 1 {
            (st, Err(Fault::Malformed))
        } else {
            let ptr = args[0].c as u32;
            let key = buffer(st.mem, ptr);
            (
                Machine { pending: Some(recovered_key(st, ptr)), asked: st.asked.push(key), ..st },
                Ok(seq![con((cx.storage)(key).len() as u64)]),
            )
        }
    } else if name == "__load_storage"@ {
        if args.len() < 2 {
            (st, Err(Fault::Malformed))
        } else {
            let ptr = args[0].c as u32;
            let out = args[1].c as u32 as int;
            let key = buffer(st.mem, ptr);
            let source = match st.pending {
                Some(k) => k,
                None => recovered_key(st, ptr),
            };
            let value = (cx.storage)(key);
            let st = Machine { asked: st.asked.push(key), ..st };
            if !in_memory(st.mem, out, value.len() as int) {
                (st, Err(Fault::OutOfBounds))
            } else {
                let st = with_bytes(st, out, value);
                (
                    Machine {
                        tags: tags::tagged(
                            st.tags,
                            out,
                            value.len() as int,
                            BytesTerm::Storage(Box::new(source)),
                            (now, 0),
                        ),
                        ..st
                    },
                    Ok(seq![con(value.len() as u64)]),
                )
            }
        }
    } else if name == "__height"@ {
        if args.len() < 1 {
            (st, Err(Fault::Malformed))
        } else {
            let ptr = args[0].c as u32 as int;
            if !in_memory(st.mem, ptr, 8) {
                (st, Err(Fault::OutOfBounds))
            } else {
                let st = with_bytes(st, ptr, bytes::le_bytes(cx.height as int, 8));
                (
                    Machine {
                        tags: tags::tagged(
                            st.tags,
                            ptr,
                            8,
                            BytesTerm::Le { of: Box::new(NumTerm::Height), width: 8 },
                            (now, 0),
                        ),
                        ..st
                    },
                    Ok(Seq::empty()),
                )
            }
        }
    } else if name == "__log"@ {
        (st, Ok(Seq::empty()))
    } else if name == "abort"@ {
        (st, Err(Fault::Abort))
    } else {
        (Machine { disq: Some(disqualifier(name)), ..st }, Err(Fault::Disqualified))
    }
}

/*──────────────────────── control flow ────────────────────────*/

/// Which block openers have their `else` and `end` where.
pub struct Structure {
    /// Openers not closed yet.
    pub open: Seq<usize>,
    pub ends: Map<int, usize>,
    pub elses: Map<int, usize>,
}

/// The structure of the first `n` operators of a body.
pub open spec fn structure(body: Seq<Op>, n: int) -> Structure
    decreases n,
{
    if n <= 0 {
        Structure { open: Seq::empty(), ends: Map::empty(), elses: Map::empty() }
    } else {
        let s = structure(body, n - 1);
        let i = (n - 1) as usize;
        match body[n - 1] {
            Op::Block(_) | Op::Loop(_) | Op::If(_) => Structure { open: s.open.push(i), ..s },
            Op::Else => if s.open.len() > 0 {
                Structure { elses: s.elses.insert(s.open.last() as int, i), ..s }
            } else {
                s
            },
            Op::End => if s.open.len() > 0 {
                Structure { ends: s.ends.insert(s.open.last() as int, i), open: s.open.drop_last(), ..s }
            } else {
                s
            },
            _ => s,
        }
    }
}

/// How many results a block has.
pub open spec fn block_results(m: ModuleModel, shape: BlockShape) -> int {
    match shape {
        BlockShape::Empty => 0,
        BlockShape::Operand => 1,
        BlockShape::Func(t) => if t < m.types.len() { m.types[t as int].results.len() as int } else { 0 },
    }
}

/// How many parameters a block has.
pub open spec fn block_inputs(m: ModuleModel, shape: BlockShape) -> int {
    match shape {
        BlockShape::Func(t) => if t < m.types.len() { m.types[t as int].params.len() as int } else { 0 },
        _ => 0,
    }
}

/// The last `n` values, in stack order.
pub open spec fn results(vs: Seq<Datum>, n: int) -> Result<Seq<Datum>, Fault> {
    if vs.len() < n {
        Err(Fault::Underflow)
    } else {
        Ok(vs.skip(vs.len() - n))
    }
}

/// A branch out of `depth` blocks, or back to the start of a loop.
pub open spec fn branched(fr: Frame, depth: int) -> Option<Frame> {
    if depth >= fr.blocks.len() {
        None
    } else {
        let t = fr.blocks.len() - 1 - depth;
        let f = fr.blocks[t];
        let keeps = f.arity > 0 && fr.stack.len() >= f.arity;
        let kept = if keeps { fr.stack.skip(fr.stack.len() - f.arity) } else { Seq::empty() };
        let rest = if keeps { fr.stack.take(fr.stack.len() - f.arity) } else { fr.stack };
        let base = if f.height <= rest.len() { rest.take(f.height as int) } else { rest };
        Some(
            Frame {
                stack: base + kept,
                blocks: fr.blocks.take(if f.is_loop { t + 1 } else { t }),
                pc: f.cont as int,
                ..fr
            },
        )
    }
}

/// What a branch leads to: a branch out of all blocks leaves the function.
pub open spec fn branch_flow(fr: Frame, depth: int, n_results: int) -> Result<Flow, Fault> {
    if depth == fr.blocks.len() {
        match results(fr.stack, n_results) {
            Ok(out) => Ok(Flow::Return(out)),
            Err(f) => Err(f),
        }
    } else {
        match branched(fr, depth) {
            Some(fr) => Ok(Flow::Next(fr)),
            None => Err(Fault::Malformed),
        }
    }
}

/// The direction of a branch. A concrete condition follows its value and leaves no
/// trace. A symbolic one is recorded, and is overridden within the forced prefix.
pub open spec fn decided(cx: Setup, st: Machine, cond: Datum) -> (Machine, bool) {
    match condition(cond) {
        None => (st, holds(cond)),
        Some(p) => {
            let k = st.path.len() as int;
            let dir = if k < cx.forced.len() { cx.forced[k] } else { holds(cond) };
            (
                if k < MAX_PATH {
                    Machine { path: st.path.push((p, dir)), ..st }
                } else {
                    st
                },
                dir,
            )
        }
    }
}

/// The frame after an operator that only changed the value stack.
pub open spec fn onward(fr: Frame, stack: Seq<Datum>) -> Flow {
    Flow::Next(Frame { stack, pc: fr.pc + 1, ..fr })
}

/// A call of a function with the arguments on the stack.
pub open spec fn called(m: ModuleModel, fr: Frame, f: u32, vs: Seq<Datum>) -> Result<Flow, Fault> {
    match module::sig_at(m, f) {
        None => Err(Fault::CallTarget),
        Some(sig) => {
            let n = sig.params.len() as int;
            if vs.len() < n {
                Err(Fault::Underflow)
            } else {
                Ok(
                    Flow::Call(
                        f,
                        vs.skip(vs.len() - n),
                        Frame { stack: vs.take(vs.len() - n), pc: fr.pc + 1, ..fr },
                    ),
                )
            }
        }
    }
}

/// A call through the table: the function has to be of the type that the caller names.
pub open spec fn called_as(m: ModuleModel, fr: Frame, ty: u32, f: u32, vs: Seq<Datum>) -> Result<Flow, Fault> {
    match module::sig_at(m, f) {
        None => Err(Fault::CallTarget),
        Some(sig) => if ty >= m.types.len() {
            Err(Fault::Malformed)
        } else if sig != m.types[ty as int] {
            Err(Fault::CallType)
        } else {
            called(m, fr, f, vs)
        },
    }
}

/// What the structured operators and branches do.
pub open spec fn control_flow(
    cx: Setup,
    st: Machine,
    body: Seq<Op>,
    n_results: int,
    fr: Frame,
) -> (Machine, Result<Flow, Fault>) {
    let vs = fr.stack;
    let s = structure(body, body.len() as int);
    match body[fr.pc] {
        Op::Block(shape) => if block_inputs(cx.module, shape) != 0 {
            (st, Err(Fault::Unsupported))
        } else if !s.ends.contains_key(fr.pc) {
            (st, Err(Fault::Malformed))
        } else {
            let end = s.ends[fr.pc];
            let c = Ctrl {
                end,
                cont: (end + 1) as usize,
                arity: block_results(cx.module, shape) as usize,
                height: vs.len() as usize,
                is_loop: false,
            };
            (st, Ok(Flow::Next(Frame { blocks: fr.blocks.push(c), pc: fr.pc + 1, ..fr })))
        },
        Op::Loop(shape) => if block_inputs(cx.module, shape) != 0 {
            (st, Err(Fault::Unsupported))
        } else if !s.ends.contains_key(fr.pc) {
            (st, Err(Fault::Malformed))
        } else {
            let c = Ctrl {
                end: s.ends[fr.pc],
                cont: (fr.pc + 1) as usize,
                arity: 0,
                height: vs.len() as usize,
                is_loop: true,
            };
            (st, Ok(Flow::Next(Frame { blocks: fr.blocks.push(c), pc: fr.pc + 1, ..fr })))
        },
        Op::If(shape) => if block_inputs(cx.module, shape) != 0 {
            (st, Err(Fault::Unsupported))
        } else if vs.len() < 1 {
            (st, Err(Fault::Underflow))
        } else {
            let (st, taken) = decided(cx, st, vs.last());
            if !s.ends.contains_key(fr.pc) {
                (st, Err(Fault::Malformed))
            } else {
                let end = s.ends[fr.pc];
                let c = Ctrl {
                    end,
                    cont: (end + 1) as usize,
                    arity: block_results(cx.module, shape) as usize,
                    height: (vs.len() - 1) as usize,
                    is_loop: false,
                };
                let inside = Frame { stack: vs.drop_last(), blocks: fr.blocks.push(c), ..fr };
                if taken {
                    (st, Ok(Flow::Next(Frame { pc: fr.pc + 1, ..inside })))
                } else if s.elses.contains_key(fr.pc) {
                    (st, Ok(Flow::Next(Frame { pc: s.elses[fr.pc] + 1, ..inside })))
                } else {
                    (st, Ok(Flow::Next(Frame { stack: vs.drop_last(), pc: end + 1, ..fr })))
                }
            }
        },
        Op::Else => if fr.blocks.len() == 0 {
            (st, Err(Fault::Malformed))
        } else {
            (st, Ok(Flow::Next(Frame { pc: fr.blocks.last().end as int, ..fr })))
        },
        Op::End => if fr.blocks.len() == 0 {
            match results(vs, n_results) {
                Ok(out) => (st, Ok(Flow::Return(out))),
                Err(f) => (st, Err(f)),
            }
        } else {
            (st, Ok(Flow::Next(Frame { blocks: fr.blocks.drop_last(), pc: fr.pc + 1, ..fr })))
        },
        Op::Br(depth) => (st, branch_flow(fr, depth as int, n_results)),
        Op::BrIf(depth) => if vs.len() < 1 {
            (st, Err(Fault::Underflow))
        } else {
            let (st, taken) = decided(cx, st, vs.last());
            let fr = Frame { stack: vs.drop_last(), ..fr };
            if taken {
                (st, branch_flow(fr, depth as int, n_results))
            } else {
                (st, Ok(Flow::Next(Frame { pc: fr.pc + 1, ..fr })))
            }
        },
        Op::BrTable(targets, default) => if vs.len() < 1 {
            (st, Err(Fault::Underflow))
        } else {
            let idx = vs.last().c as u32;
            let depth = if idx < targets@.len() && targets@[idx as int] is Some {
                targets@[idx as int]->0
            } else {
                default
            };
            (st, branch_flow(Frame { stack: vs.drop_last(), ..fr }, depth as int, n_results))
        },
        Op::Return => match results(vs, n_results) {
            Ok(out) => (st, Ok(Flow::Return(out))),
            Err(f) => (st, Err(f)),
        },
        Op::Call(f) => (st, called(cx.module, fr, f, vs)),
        Op::CallIndirect(ty) => if vs.len() < 1 {
            (st, Err(Fault::Underflow))
        } else {
            let idx = vs.last().c as usize;
            if idx < cx.module.table.len() && cx.module.table[idx as int] is Some {
                (st, called_as(cx.module, fr, ty, cx.module.table[idx as int]->0, vs.drop_last()))
            } else {
                (st, Err(Fault::CallTarget))
            }
        },
        _ => (st, Err(Fault::Unreachable)),
    }
}

/// A selection. If the selector is symbolic and a branch is too, the result is
/// conditional instead of collapsing to one side.
pub open spec fn selected(c: Datum, a: Datum, b: Datum) -> Datum {
    if condition(c) is Some && (is_symbolic(a) || is_symbolic(b)) {
        num(
            if holds(c) { a.c } else { b.c },
            Some(
                NumTerm::If {
                    cond: Box::new(condition(c)->0),
                    if_true: Box::new(as_sym(a)),
                    if_false: Box::new(as_sym(b)),
                },
            ),
        )
    } else if holds(c) {
        a
    } else {
        b
    }
}

/// What variables, constants and the stack operators do.
pub open spec fn data_flow(st: Machine, op: Op, fr: Frame) -> (Machine, Result<Flow, Fault>) {
    let vs = fr.stack;
    match op {
        Op::Drop => if vs.len() < 1 {
            (st, Err(Fault::Underflow))
        } else {
            (st, Ok(onward(fr, vs.drop_last())))
        },
        Op::Select => if vs.len() < 3 {
            (st, Err(Fault::Underflow))
        } else {
            (
                st,
                Ok(
                    onward(
                        fr,
                        vs.take(vs.len() - 3).push(selected(vs.last(), vs[vs.len() - 3], vs[vs.len() - 2])),
                    ),
                ),
            )
        },
        Op::LocalGet(i) => if i >= fr.locals.len() {
            (st, Err(Fault::Malformed))
        } else {
            (st, Ok(onward(fr, vs.push(fr.locals[i as int]))))
        },
        Op::LocalSet(i) => if vs.len() < 1 {
            (st, Err(Fault::Underflow))
        } else if i >= fr.locals.len() {
            (st, Err(Fault::Malformed))
        } else {
            (st, Ok(onward(Frame { locals: fr.locals.update(i as int, vs.last()), ..fr }, vs.drop_last())))
        },
        Op::LocalTee(i) => if vs.len() < 1 {
            (st, Err(Fault::Underflow))
        } else if i >= fr.locals.len() {
            (st, Err(Fault::Malformed))
        } else {
            (st, Ok(onward(Frame { locals: fr.locals.update(i as int, vs.last()), ..fr }, vs)))
        },
        Op::GlobalGet(i) => if i >= st.globals.len() {
            (st, Err(Fault::Malformed))
        } else {
            (st, Ok(onward(fr, vs.push(con(st.globals[i as int] as u64)))))
        },
        Op::GlobalSet(i) => if vs.len() < 1 {
            (st, Err(Fault::Underflow))
        } else if i >= st.globals.len() {
            (st, Err(Fault::Malformed))
        } else {
            (
                Machine { globals: st.globals.update(i as int, vs.last().c as i64), ..st },
                Ok(onward(fr, vs.drop_last())),
            )
        },
        Op::I32Const(v) => (st, Ok(onward(fr, vs.push(con(v as u32 as u64))))),
        Op::I64Const(v) => (st, Ok(onward(fr, vs.push(con(v as u64))))),
        _ => (st, Ok(onward(fr, vs))),
    }
}

/// Which operators are control flow.
pub open spec fn is_control(op: Op) -> bool {
    match op {
        Op::Unreachable | Op::Block(_) | Op::Loop(_) | Op::If(_) | Op::Else | Op::End | Op::Br(_) | Op::BrIf(_)
        | Op::BrTable(_, _) | Op::Return | Op::Call(_) | Op::CallIndirect(_) => true,
        _ => false,
    }
}

/// Which operators move data without computing.
pub open spec fn is_data(op: Op) -> bool {
    match op {
        Op::Nop | Op::Drop | Op::Select | Op::LocalGet(_) | Op::LocalSet(_) | Op::LocalTee(_) | Op::GlobalGet(_)
        | Op::GlobalSet(_) | Op::I32Const(_) | Op::I64Const(_) => true,
        _ => false,
    }
}

/// The stack change of an operator, as flow.
pub open spec fn stack_flow(fr: Frame, r: (Machine, Result<Seq<Datum>, Fault>)) -> (Machine, Result<Flow, Fault>) {
    match r.1 {
        Ok(vs) => (r.0, Ok(onward(fr, vs))),
        Err(f) => (r.0, Err(f)),
    }
}

/// What the operator at the frame's position does.
pub open spec fn step(
    cx: Setup,
    st: Machine,
    now: u64,
    body: Seq<Op>,
    n_results: int,
    fr: Frame,
) -> (Machine, Result<Flow, Fault>) {
    let op = body[fr.pc];
    if is_control(op) {
        control_flow(cx, st, body, n_results, fr)
    } else if is_data(op) {
        data_flow(st, op, fr)
    } else {
        match op {
            Op::Load(k, offset) => stack_flow(fr, (st, loaded(st, k, offset, fr.stack))),
            Op::Store(k, offset) => stack_flow(fr, stored(st, now, k, offset, fr.stack)),
            Op::MemorySize | Op::MemoryGrow | Op::MemoryCopy | Op::MemoryFill => stack_flow(
                fr,
                memory_flow(cx, st, op, fr.stack),
            ),
            _ => match numeric(op, fr.stack) {
                Some(r) => stack_flow(fr, (st, r)),
                None => (st, Err(Fault::Unsupported)),
            },
        }
    }
}

/// The outcome of a run: the steps it has taken, the machine, and the results.
pub struct Outcome {
    pub steps: u64,
    pub machine: Machine,
    pub result: Result<Seq<Datum>, Fault>,
}

/// How many steps are left.
pub open spec fn steps_left(cx: Setup, steps: u64) -> nat {
    if steps < cx.max_steps { (cx.max_steps - steps) as nat } else { 0 }
}

pub open spec fn later(a: u64, b: u64) -> u64 {
    if a < b { b } else { a }
}

/// Runs a body from a frame on.
pub open spec fn run(
    cx: Setup,
    steps: u64,
    st: Machine,
    body: Seq<Op>,
    n_results: int,
    fr: Frame,
) -> Outcome
    decreases steps_left(cx, steps),
{
    if fr.pc < 0 || fr.pc >= body.len() {
        Outcome { steps, machine: st, result: results(fr.stack, n_results) }
    } else if steps >= cx.max_steps {
        Outcome { steps, machine: st, result: Err(Fault::Budget) }
    } else {
        let now = (steps + 1) as u64;
        let (st, flow) = step(cx, st, now, body, n_results, fr);
        match flow {
            Err(f) => Outcome { steps: now, machine: st, result: Err(f) },
            Ok(Flow::Return(out)) => Outcome { steps: now, machine: st, result: Ok(out) },
            Ok(Flow::Next(fr)) => run(cx, now, st, body, n_results, fr),
            Ok(Flow::Call(f, args, fr)) => {
                let o = call(cx, now, st, f, args);
                match o.result {
                    Err(_) => o,
                    Ok(out) => run(
                        cx,
                        later(now, o.steps),
                        o.machine,
                        body,
                        n_results,
                        Frame { stack: fr.stack + out, ..fr },
                    ),
                }
            }
        }
    }
}

/// Calls a function: an import by its name, a defined one by running its body with
/// its arguments and zeros for locals.
pub open spec fn call(cx: Setup, steps: u64, st: Machine, f: u32, args: Seq<Datum>) -> Outcome
    decreases steps_left(cx, steps),
{
    let n = cx.module.imports.len();
    if steps >= cx.max_steps {
        Outcome { steps, machine: st, result: Err(Fault::Budget) }
    } else {
        let now = (steps + 1) as u64;
        if f < n {
            let (st, r) = host_called(cx, st, now, cx.module.imports[f as int].name, args);
            Outcome { steps: now, machine: st, result: r }
        } else if f - n >= cx.module.funcs.len() {
            Outcome { steps: now, machine: st, result: Err(Fault::Malformed) }
        } else {
            let func = cx.module.funcs[f - n];
            run(
                cx,
                now,
                st,
                func.body,
                func.sig.results.len() as int,
                Frame {
                    locals: args + Seq::new(func.locals.len(), |i: int| con(0)),
                    stack: Seq::empty(),
                    blocks: Seq::empty(),
                    pc: 0,
                },
            )
        }
    }
}

/// What a run of `__execute` comes to.
pub enum Executed {
    /// The symbolic data of the response.
    Data(BytesTerm),
    Trap(Fault),
    Disqualified(&'static str),
    Unsupported(Fault),
}

/// Runs the export `__execute` without arguments and reads its response. A
/// disqualifying host function decides over everything else.
pub open spec fn executed(cx: Setup, steps: u64, st: Machine) -> (Machine, Executed) {
    match module::export_index(cx.module.exports, "__execute"@) {
        None => (st, Executed::Unsupported(Fault::CallTarget)),
        Some(f) => {
            let o = call(cx, steps, st, f, Seq::empty());
            let st = o.machine;
            (
                st,
                match st.disq {
                    Some(d) => Executed::Disqualified(d),
                    None => match o.result {
                        Ok(out) => match response_term(st, if out.len() > 0 { out[0].c as u32 } else { 0 }) {
                            Some(data) => Executed::Data(data),
                            None => Executed::Trap(Fault::Response),
                        },
                        Err(f) => if f == Fault::Unsupported {
                            Executed::Unsupported(f)
                        } else {
                            Executed::Trap(f)
                        },
                    },
                },
            )
        }
    }
}

/// The machine at the start of a run.
pub open spec fn started(m: ModuleModel) -> Machine {
    let size = m.min_pages * PAGE;
    Machine {
        mem: if m.memory.len() < size { m.memory + module::zeros(size - m.memory.len()) } else { m.memory },
        tags: Map::empty(),
        globals: Seq::new(m.globals.len(), |i: int| m.globals[i].init),
        pending: None,
        disq: None,
        path: Seq::empty(),
        asked: Seq::empty(),
    }
}

} // verus!
