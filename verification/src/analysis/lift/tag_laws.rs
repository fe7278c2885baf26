//! What the symbolic tags of the interpreter's values promise: a tag evaluates, in the
//! world that a run sees, to the value that carries it.
use vstd::prelude::*;
use crate::analysis::fit;
use crate::analysis::fit_laws;
use crate::analysis::lift::machine;
use crate::analysis::lift::machine::{Datum, Fault, Machine, Setup};
use crate::analysis::lift::op::{Conversion, IntOp, LoadOp, StoreOp};
use crate::analysis::lift::tags;
use crate::analysis::lift::tags::Prov;
use crate::bytes;
use crate::plan::eval;
use crate::plan::term;
use crate::plan::term::{Comparison, NumOp};
use crate::plan::{BoolTerm, BytesTerm, NumTerm, PlanError, World};

verus! {

/// Whether the tags of a value evaluate to it: a numeric tag to its number, a boolean one
/// to whether it is one rather than zero.
pub open spec fn agrees(v: Datum, w: World) -> bool {
    &&& v.s matches Some(t) ==> eval::num_value(t, w, None) == Ok::<u128, PlanError>(v.c as u128)
    &&& v.b matches Some(p) ==> v.c <= 1 && eval::bool_value(p, w, None) == Ok::<bool, PlanError>(v.c == 1)
}

/// A value that agrees with its tags agrees as a number too.
pub proof fn lemma_as_sym(v: Datum, w: World)
    requires
        agrees(v, w),
    ensures
        eval::num_value(machine::as_sym(v), w, None) == Ok::<u128, PlanError>(v.c as u128),
{
    reveal_with_fuel(eval::num_value, 2);
}

proof fn lemma_op_tag(op: NumOp, a: Datum, b: Datum, w: World)
    requires
        agrees(a, w),
        agrees(b, w),
        op is Div || op is Mod ==> b.c != 0,
    ensures
        machine::op_tag(op, a, b) matches Some(t) ==> eval::num_value(t, w, None) == Ok::<u128, PlanError>(
            eval::num_op(op, a.c as u128, b.c as u128),
        ),
{
    lemma_as_sym(a, w);
    lemma_as_sym(b, w);
    reveal_with_fuel(eval::num_value, 2);
}

proof fn lemma_masked(s: Option<NumTerm>, mask: u128, n: u128, w: World)
    requires
        s matches Some(t) ==> eval::num_value(t, w, None) == Ok::<u128, PlanError>(n),
    ensures
        machine::masked(s, mask) matches Some(t) ==> eval::num_value(t, w, None) == Ok::<u128, PlanError>(n & mask),
{
    reveal_with_fuel(eval::num_value, 2);
}

proof fn lemma_masks()
    ensures
        fit::width_mask(4) == 0xffff_ffff,
        fit::width_mask(8) == 0xffff_ffff_ffff_ffff,
        bytes::pow256(4) == 0x1_0000_0000,
        bytes::pow256(8) == 0x1_0000_0000_0000_0000,
{
    assert(1u128 << 32u32 == 0x1_0000_0000 && 1u128 << 64u32 == 0x1_0000_0000_0000_0000) by (bit_vector);
    bytes::lemma_pow256_16();
}

/// The largest number of a type.
pub open spec fn most(wide: bool) -> u64 {
    if wide { 0xffff_ffff_ffff_ffff } else { 0xffff_ffff }
}

/// What the tags of an operation rest on: operands of the type, and a shift by less than
/// the bits it has.
pub open spec fn in_range(op: IntOp, wide: bool, a: Datum, b: Datum) -> bool {
    &&& a.c <= most(wide)
    &&& b.c <= most(wide)
    &&& op is Shl || op is ShrU ==> b.c < if wide { 64u64 } else { 32 }
}

proof fn lemma_ring_tags(op: IntOp, wide: bool, a: Datum, b: Datum, c: u64, w: World)
    requires
        agrees(a, w),
        agrees(b, w),
        in_range(op, wide, a, b),
        op is Add || op is Sub || op is Mul,
        machine::int_bits(op, wide, a.c, b.c) == Ok::<u64, Fault>(c),
    ensures
        agrees(machine::int_tagged(op, wide, c, a, b), w),
{
    let mask: u128 = if wide { 0xffff_ffff_ffff_ffff } else { 0xffff_ffff };
    let width: u8 = if wide { 8 } else { 4 };
    let no = if op is Add { NumOp::Add } else if op is Sub { NumOp::Sub } else { NumOp::Mul };
    let (x, y) = (a.c as u128, b.c as u128);
    let n = if op is Add { x + y } else if op is Sub { x - y } else { x * y };
    lemma_masks();
    lemma_op_tag(no, a, b, w);
    assert(0 <= x * y) by (nonlinear_arith);
    let r = eval::num_op(no, x, y);
    assert(r as int == n % 0x1_0000_0000_0000_0000_0000_0000_0000_0000int);
    fit_laws::lemma_wrapped(n, r, width);
    lemma_masked(machine::op_tag(no, a, b), mask, r, w);
    assert((r & mask) as int == n % (if wide { 0x1_0000_0000_0000_0000int } else { 0x1_0000_0000int }));
    assert(c as int == n % (if wide { 0x1_0000_0000_0000_0000int } else { 0x1_0000_0000int }));
}

proof fn lemma_bit_tags(op: IntOp, wide: bool, a: Datum, b: Datum, c: u64, w: World)
    requires
        agrees(a, w),
        agrees(b, w),
        in_range(op, wide, a, b),
        op is And || op is Or || op is Xor || op is Shl || op is ShrU,
        machine::int_bits(op, wide, a.c, b.c) == Ok::<u64, Fault>(c),
    ensures
        agrees(machine::int_tagged(op, wide, c, a, b), w),
{
    let mask: u128 = if wide { 0xffff_ffff_ffff_ffff } else { 0xffff_ffff };
    let no = if op is And {
        NumOp::And
    } else if op is Or {
        NumOp::Or
    } else if op is Xor {
        NumOp::Xor
    } else if op is Shl {
        NumOp::Shl
    } else {
        NumOp::Shr
    };
    let (x, y) = (a.c, b.c);
    lemma_op_tag(no, a, b, w);
    lemma_masked(machine::op_tag(no, a, b), mask, eval::num_op(no, x as u128, y as u128), w);
    let (x32, y32) = (x as u32, y as u32);
    lemma_bits(x, y, x32, y32);
}

proof fn lemma_bits(x: u64, y: u64, x32: u32, y32: u32)
    by (bit_vector)
    requires
        x32 == x as u32,
        y32 == y as u32,
    ensures
        (x & y) as u128 == (x as u128) & (y as u128),
        (x | y) as u128 == (x as u128) | (y as u128),
        (x ^ y) as u128 == (x as u128) ^ (y as u128),
        x <= 0xffff_ffff && y <= 0xffff_ffff ==> (x32 & y32) as u64 as u128 == (x as u128) & (y as u128),
        x <= 0xffff_ffff && y <= 0xffff_ffff ==> (x32 | y32) as u64 as u128 == (x as u128) | (y as u128),
        x <= 0xffff_ffff && y <= 0xffff_ffff ==> (x32 ^ y32) as u64 as u128 == (x as u128) ^ (y as u128),
        y < 64 ==> (x << (y as u32)) as u128 == ((x as u128) << (y as u128)) & 0xffff_ffff_ffff_ffff,
        y < 64 ==> (x >> (y as u32)) as u128 == (x as u128) >> (y as u128),
        x <= 0xffff_ffff && y < 32 ==> (x32 << y32) as u64 as u128 == ((x as u128) << (y as u128)) & 0xffff_ffff,
        x <= 0xffff_ffff && y < 32 ==> (x32 >> y32) as u64 as u128 == (x as u128) >> (y as u128),
{
}

proof fn lemma_division_tags(op: IntOp, wide: bool, a: Datum, b: Datum, c: u64, w: World)
    requires
        agrees(a, w),
        agrees(b, w),
        in_range(op, wide, a, b),
        op is DivU || op is RemU,
        machine::int_bits(op, wide, a.c, b.c) == Ok::<u64, Fault>(c),
    ensures
        agrees(machine::int_tagged(op, wide, c, a, b), w),
{
    assert(b.c != 0);
    lemma_op_tag(if op is DivU { NumOp::Div } else { NumOp::Mod }, a, b, w);
}

proof fn lemma_compare_tags(op: IntOp, wide: bool, a: Datum, b: Datum, c: u64, w: World)
    requires
        agrees(a, w),
        agrees(b, w),
        in_range(op, wide, a, b),
        op is Eqz || op is Eq || op is Ne || op is LtU || op is GtU || op is LeU || op is GeU,
        machine::int_bits(op, wide, a.c, b.c) == Ok::<u64, Fault>(c),
    ensures
        agrees(machine::int_tagged(op, wide, c, a, b), w),
{
    lemma_as_sym(a, w);
    lemma_as_sym(b, w);
    reveal_with_fuel(eval::bool_value, 2);
    reveal_with_fuel(eval::num_value, 2);
}

/// Where the operands of an integer operation agree with their tags, so does its result,
/// whichever operation it is.
pub proof fn lemma_int_tags(op: IntOp, wide: bool, a: Datum, b: Datum, c: u64, w: World)
    requires
        agrees(a, w),
        agrees(b, w),
        in_range(op, wide, a, b),
        machine::int_bits(op, wide, a.c, b.c) == Ok::<u64, Fault>(c),
    ensures
        agrees(machine::int_tagged(op, wide, c, a, b), w),
        machine::int_tagged(op, wide, c, a, b).c == c,
{
    if op is Add || op is Sub || op is Mul {
        lemma_ring_tags(op, wide, a, b, c, w);
    } else if op is And || op is Or || op is Xor || op is Shl || op is ShrU {
        lemma_bit_tags(op, wide, a, b, c, w);
    } else if op is DivU || op is RemU {
        lemma_division_tags(op, wide, a, b, c, w);
    } else if op is Eqz || op is Eq || op is Ne || op is LtU || op is GtU || op is LeU || op is GeU {
        lemma_compare_tags(op, wide, a, b, c, w);
    }
}

/// Unsigned arithmetic and unsigned comparisons of symbolic numbers stay symbolic.
pub proof fn lemma_tags_flow(op: IntOp, wide: bool, a: Datum, b: Datum, c: u64)
    requires
        a.s is Some,
    ensures
        op is Add || op is Sub || op is Mul || op is Shl || op is DivU || op is RemU || op is And || op is Or || op is Xor || op is ShrU
            ==> machine::int_tagged(op, wide, c, a, b).s is Some,
        op is Eqz || op is Eq || op is Ne || op is LtU || op is GtU || op is LeU || op is GeU ==> machine::int_tagged(op, wide, c, a, b).b is Some,
{
}

/// The condition of a value that agrees with its tags holds exactly if the value is not
/// zero.
pub proof fn lemma_condition(v: Datum, w: World)
    requires
        agrees(v, w),
    ensures
        machine::condition(v) matches Some(p) ==> eval::bool_value(p, w, None) == Ok::<bool, PlanError>(v.c != 0),
        v.c <= 0xffff_ffff ==> machine::holds(v) == (v.c != 0),
        machine::condition(v) is Some <==> v.s is Some || v.b is Some,
{
    reveal_with_fuel(eval::bool_value, 2);
    reveal_with_fuel(eval::num_value, 2);
}

/// A selection by a value that is not zero gives the first of two, else the second, and
/// agrees with its tags where all three do.
pub proof fn lemma_selected(c: Datum, a: Datum, b: Datum, w: World)
    requires
        agrees(c, w),
        agrees(a, w),
        agrees(b, w),
        c.c <= 0xffff_ffff,
    ensures
        machine::selected(c, a, b).c == if c.c != 0 { a.c } else { b.c },
        agrees(machine::selected(c, a, b), w),
        machine::condition(c) is Some && (machine::is_symbolic(a) || machine::is_symbolic(b)) ==> machine::selected(c, a, b).s is Some,
{
    lemma_condition(c, w);
    lemma_as_sym(a, w);
    lemma_as_sym(b, w);
    reveal_with_fuel(eval::num_value, 2);
}

/// A change of width that keeps the number keeps its tag, and the result agrees with it.
pub proof fn lemma_converted(a: Datum, w: World)
    requires
        agrees(a, w),
    ensures
        a.c <= 0xffff_ffff ==> agrees(machine::converted(Conversion::I32WrapI64, a), w),
        a.c <= 0xffff_ffff ==> agrees(machine::converted(Conversion::I64ExtendI32U, a), w),
        a.c <= 0x7fff_ffff ==> agrees(machine::converted(Conversion::I64ExtendI32S, a), w),
        machine::converted(Conversion::I32WrapI64, a).c == a.c % 0x1_0000_0000,
        machine::converted(Conversion::I64ExtendI32U, a).c == a.c % 0x1_0000_0000,
        machine::converted(Conversion::I64ExtendI32S, a).c as i64 == a.c as i32,
        machine::converted(Conversion::I64Extend32S, a).c as i64 == a.c as i32,
        machine::converted(Conversion::I64Extend16S, a).c as i64 == a.c as i16,
        machine::converted(Conversion::I64Extend8S, a).c as i64 == a.c as i8,
        machine::converted(Conversion::I32Extend16S, a).c as i32 == a.c as i16,
        machine::converted(Conversion::I32Extend8S, a).c as i32 == a.c as i8,
        machine::converted(Conversion::I32Extend16S, a).c <= 0xffff_ffff,
        machine::converted(Conversion::I32Extend8S, a).c <= 0xffff_ffff,
        machine::converted(Conversion::I32WrapI64, a).s == a.s,
        machine::converted(Conversion::I64ExtendI32U, a).s == a.s,
{
    lemma_widths(a.c);
}

proof fn lemma_widths(c: u64)
    by (bit_vector)
    ensures
        c as u32 as u64 == c % 0x1_0000_0000,
        c <= 0xffff_ffff ==> c as u32 as u64 == c,
        c <= 0x7fff_ffff ==> (c as u32 as i32 as i64) as u64 == c,
        ((c as u32 as i32 as i64) as u64) as i64 == c as i32,
        ((c as u16 as i16 as i64) as u64) as i64 == c as i16,
        ((c as u8 as i8 as i64) as u64) as i64 == c as i8,
        ((c as u16 as i16 as i32 as u32) as u64) as i32 == c as i16,
        ((c as u8 as i8 as i32 as u32) as u64) as i32 == c as i8,
{
}

/// A concrete condition decides by its value and leaves no trace. A symbolic one is
/// recorded with the direction taken: the forced one, as far as directions are forced, and
/// the one of its value beyond.
pub proof fn lemma_decided(cx: Setup, st: Machine, v: Datum)
    ensures
        machine::condition(v) is None ==> machine::decided(cx, st, v) == (st, machine::holds(v)),
        machine::condition(v) is Some ==> machine::decided(cx, st, v).1 == if st.path.len() < cx.forced.len() {
            cx.forced[st.path.len() as int]
        } else {
            machine::holds(v)
        },
        machine::condition(v) is Some && st.path.len() < machine::MAX_PATH ==> machine::decided(cx, st, v).0.path == st.path.push(
            (machine::condition(v)->Some_0, machine::decided(cx, st, v).1),
        ),
        machine::decided(cx, st, v).0.mem == st.mem,
        machine::decided(cx, st, v).0.tags == st.tags,
{
}

/* ─────────────── memory ─────────────── */

/// Whether no byte carries the stamp of a moment.
pub open spec fn fresh(ts: Map<int, Prov>, now: u64) -> bool {
    forall|k: int| ts.contains_key(k) ==> (#[trigger] ts[k]).stamp.0 != now
}

/// The number of a store, read again over the same bytes.
pub proof fn lemma_store_load(st: Machine, now: u64, store: StoreOp, load: LoadOp, offset: u64, vs: Seq<Datum>, i: int)
    requires
        vs.len() >= 2,
        machine::load_shape(load) == (machine::store_width(store), false),
        vs[vs.len() - 2].c + offset + machine::store_width(store) <= st.mem.len(),
        fresh(st.tags, now),
    ensures
        ({
            let (after, r) = machine::stored(st, now, store, offset, vs);
            let at = vs[vs.len() - 2].c + offset;
            let v = vs.last();
            &&& r == Ok::<Seq<Datum>, Fault>(vs.take(vs.len() - 2))
            &&& after.mem.len() == st.mem.len()
            &&& 0 <= i < st.mem.len() && !(at <= i < at + machine::store_width(store)) ==> after.mem[i] == st.mem[i]
            &&& machine::loaded(after, load, offset, seq![vs[vs.len() - 2]]) matches Ok(out) && out.len() == 1 && out[0].c as int
                == v.c as int % bytes::pow256(machine::store_width(store) as nat) as int && (v.s matches Some(s) ==> out[0].s == Some(s)) && (
            v.s is None ==> out[0].s is None)
        }),
{
    let width = machine::store_width(store);
    let at = vs[vs.len() - 2].c + offset;
    let v = vs.last();
    let data = bytes::le_bytes(v.c as int, width as nat);
    bytes::lemma_le_bytes_len(v.c as int, width as nat);
    bytes::lemma_le_num_low(v.c as int, width as nat);
    let (after, r) = machine::stored(st, now, store, offset, vs);
    assert(vs.drop_last().drop_last() =~= vs.take(vs.len() - 2));
    assert(after.mem.subrange(at, at + width) =~= data);
    bytes::lemma_le_num_bound(data);
    bytes::lemma_pow256_16();
    bytes::lemma_pow256_mono(width as nat, 8);
    let stack = seq![vs[vs.len() - 2]];
    assert(stack.last() == vs[vs.len() - 2]);
    assert(stack.drop_last() =~= Seq::<Datum>::empty());
    match v.s {
        Some(s) => {
            let ts = tags::tagged(
                tags::cleared(st.tags, at, width),
                at,
                width,
                BytesTerm::Le { of: Box::new(s), width: width as u8 },
                (now, 0),
            );
            assert(after.tags == ts);
            assert(ts.contains_key(at));
            assert forall|j: int| 1 <= j < width implies #[trigger] machine::continues(ts, at, j) by {
                assert(ts.contains_key(at + j));
            }
            assert(!machine::continues(ts, at, width)) by {
                if ts.contains_key(at + width) {
                    assert(st.tags.contains_key(at + width));
                    assert(ts[at + width] == st.tags[at + width]);
                }
            }
            assert(machine::recovered_num(ts, at, width) == Some(s));
        }
        None => {
            assert(!after.tags.contains_key(at));
        }
    }
}

/// A store outside the memory, and a load from there, are faults that change nothing.
pub proof fn lemma_out_of_memory(st: Machine, now: u64, store: StoreOp, load: LoadOp, offset: u64, vs: Seq<Datum>)
    ensures
        vs.len() >= 2 && vs[vs.len() - 2].c + offset + machine::store_width(store) > st.mem.len() ==> machine::stored(st, now, store, offset, vs)
            == (st, Err::<Seq<Datum>, Fault>(Fault::OutOfBounds)),
        vs.len() >= 1 && vs.last().c + offset + machine::load_shape(load).0 > st.mem.len() ==> machine::loaded(st, load, offset, vs) == Err::<
            Seq<Datum>,
            Fault,
        >(Fault::OutOfBounds),
{
}

} // verus!
