//! What plan expressions mean, operation by operation: laws over all expressions, worlds
//! and loop variables.
use vstd::prelude::*;
use crate::bytes;
use crate::plan::eval;
use crate::plan::term;
use crate::plan::{BoolExpr, BoolTerm, BytesExpr, BytesTerm, NumExpr, NumTerm, PlanError, World, LOOP_LIMIT};

verus! {

broadcast use term::group_list_terms;

/* ─────────────── truth values ─────────────── */

/// Whether the parts before part `k` all have a value and it is `v`.
pub open spec fn all_before(parts: Seq<BoolTerm>, w: World, var: Option<u128>, k: int, v: bool) -> bool {
    forall|i: int| 0 <= i < k ==> eval::bool_value(#[trigger] parts[i], w, var) == Ok::<bool, PlanError>(v)
}

/// A disjunction looks at its parts in order. It is false if all are false, and of none;
/// else the first part that is not false decides: it is true if that part is, and has the
/// error of that part if it has one.
pub proof fn lemma_or(parts: Seq<BoolTerm>, w: World, var: Option<u128>, k: int)
    requires
        0 <= k <= parts.len(),
        all_before(parts, w, var, k, false),
    ensures
        k == parts.len() ==> eval::bool_value(BoolTerm::Or(parts), w, var) == Ok::<bool, PlanError>(false),
        k < parts.len() && eval::bool_value(parts[k], w, var) != Ok::<bool, PlanError>(false)
            ==> eval::bool_value(BoolTerm::Or(parts), w, var) == eval::bool_value(parts[k], w, var),
{
    lemma_parts(parts, false, w, var, k);
}

/// A conjunction is true if all its parts are, and of none; else the first part that is
/// not true decides.
pub proof fn lemma_and(parts: Seq<BoolTerm>, w: World, var: Option<u128>, k: int)
    requires
        0 <= k <= parts.len(),
        all_before(parts, w, var, k, true),
    ensures
        k == parts.len() ==> eval::bool_value(BoolTerm::And(parts), w, var) == Ok::<bool, PlanError>(true),
        k < parts.len() && eval::bool_value(parts[k], w, var) != Ok::<bool, PlanError>(true)
            ==> eval::bool_value(BoolTerm::And(parts), w, var) == eval::bool_value(parts[k], w, var),
{
    lemma_parts(parts, true, w, var, k);
}

proof fn lemma_parts(parts: Seq<BoolTerm>, unit: bool, w: World, var: Option<u128>, k: int)
    requires
        0 <= k <= parts.len(),
        all_before(parts, w, var, k, unit),
    ensures
        eval::list_value(parts.take(k), unit, w, var) == Ok::<bool, PlanError>(unit),
        k == parts.len() ==> eval::list_value(parts, unit, w, var) == Ok::<bool, PlanError>(unit),
        k < parts.len() && eval::bool_value(parts[k], w, var) != Ok::<bool, PlanError>(unit)
            ==> eval::list_value(parts, unit, w, var) == eval::bool_value(parts[k], w, var),
    decreases k,
{
    if k > 0 {
        lemma_parts(parts, unit, w, var, k - 1);
        assert(parts.take(k).drop_last() =~= parts.take(k - 1));
        assert(parts.take(k).last() == parts[k - 1]);
    } else {
        assert(parts.take(0) =~= Seq::empty());
    }
    if k == parts.len() {
        assert(parts.take(k) =~= parts);
    } else if eval::bool_value(parts[k], w, var) != Ok::<bool, PlanError>(unit) {
        assert(parts.take(k + 1).drop_last() =~= parts.take(k));
        assert(parts.take(k + 1).last() == parts[k]);
        lemma_parts_decided(parts, unit, w, var, k + 1);
    }
}

proof fn lemma_parts_decided(parts: Seq<BoolTerm>, unit: bool, w: World, var: Option<u128>, k: int)
    requires
        0 <= k <= parts.len(),
        eval::list_value(parts.take(k), unit, w, var) != Ok::<bool, PlanError>(unit),
    ensures
        eval::list_value(parts, unit, w, var) == eval::list_value(parts.take(k), unit, w, var),
    decreases parts.len() - k,
{
    if k < parts.len() {
        assert(parts.take(k + 1).drop_last() =~= parts.take(k));
        lemma_parts_decided(parts, unit, w, var, k + 1);
    } else {
        assert(parts.take(k) =~= parts);
    }
}

/// Of parts that all have values, a disjunction is true exactly if one of them is, and a
/// conjunction exactly if all are.
pub proof fn lemma_junctions(parts: Vec<BoolExpr>, w: World, var: Option<u128>)
    requires
        forall|i: int| 0 <= i < parts@.len() ==> eval::bool_value((#[trigger] parts@[i]).term(), w, var) is Ok,
    ensures
        eval::bool_value(BoolExpr::Or(parts).term(), w, var) matches Ok(v) && (v <==> exists|i: int|
            0 <= i < parts@.len() && eval::bool_value((#[trigger] parts@[i]).term(), w, var) == Ok::<bool, PlanError>(true)),
        eval::bool_value(BoolExpr::And(parts).term(), w, var) matches Ok(v) && (v <==> forall|i: int|
            0 <= i < parts@.len() ==> eval::bool_value((#[trigger] parts@[i]).term(), w, var) == Ok::<bool, PlanError>(true)),
{
    let ts = term::bool_terms(parts@);
    assert(BoolExpr::Or(parts).term() == BoolTerm::Or(ts));
    assert(BoolExpr::And(parts).term() == BoolTerm::And(ts));
    assert forall|i: int| 0 <= i < ts.len() implies eval::bool_value(#[trigger] ts[i], w, var) is Ok by {
        assert(ts[i] == parts@[i].term());
    }
    let k = lemma_first_other(ts, false, w, var, 0);
    lemma_or(ts, w, var, k);
    if k < ts.len() {
        assert(ts[k] == parts@[k].term());
    } else {
        assert forall|i: int| 0 <= i < parts@.len() implies eval::bool_value((#[trigger] parts@[i]).term(), w, var)
            == Ok::<bool, PlanError>(false) by {
            assert(ts[i] == parts@[i].term());
        }
    }
    let j = lemma_first_other(ts, true, w, var, 0);
    lemma_and(ts, w, var, j);
    if j < ts.len() {
        assert(ts[j] == parts@[j].term());
        assert(eval::bool_value(parts@[j].term(), w, var) != Ok::<bool, PlanError>(true));
    } else {
        assert forall|i: int| 0 <= i < parts@.len() implies eval::bool_value((#[trigger] parts@[i]).term(), w, var)
            == Ok::<bool, PlanError>(true) by {
            assert(ts[i] == parts@[i].term());
        }
    }
}

/// The first part, from one on, that is not `v`.
proof fn lemma_first_other(parts: Seq<BoolTerm>, v: bool, w: World, var: Option<u128>, from: int) -> (k: int)
    requires
        0 <= from <= parts.len(),
        all_before(parts, w, var, from, v),
    ensures
        from <= k <= parts.len(),
        all_before(parts, w, var, k, v),
        k < parts.len() ==> eval::bool_value(parts[k], w, var) != Ok::<bool, PlanError>(v),
    decreases parts.len() - from,
{
    if from < parts.len() && eval::bool_value(parts[from], w, var) == Ok::<bool, PlanError>(v) {
        lemma_first_other(parts, v, w, var, from + 1)
    } else {
        from
    }
}

/// A negation is false where its operand is true, and true where it is false; it has an
/// error where its operand has one.
pub proof fn lemma_not(e: BoolExpr, w: World, var: Option<u128>)
    ensures
        match eval::bool_value(e.term(), w, var) {
            Ok(v) => eval::bool_value(BoolExpr::Not(Box::new(e)).term(), w, var) == Ok::<bool, PlanError>(!v),
            Err(x) => eval::bool_value(BoolExpr::Not(Box::new(e)).term(), w, var) == Err::<bool, PlanError>(x),
        },
{
}

/// The comparisons compare the numbers: they hold as the integers compare.
pub proof fn lemma_comparisons(a: NumExpr, b: NumExpr, w: World, var: Option<u128>, x: u128, y: u128)
    requires
        eval::num_value(a.term(), w, var) == Ok::<u128, PlanError>(x),
        eval::num_value(b.term(), w, var) == Ok::<u128, PlanError>(y),
    ensures
        eval::bool_value(BoolExpr::Eq(Box::new(a), Box::new(b)).term(), w, var) == Ok::<bool, PlanError>(x as int == y as int),
        eval::bool_value(BoolExpr::Ne(Box::new(a), Box::new(b)).term(), w, var) == Ok::<bool, PlanError>(x as int != y as int),
        eval::bool_value(BoolExpr::Lt(Box::new(a), Box::new(b)).term(), w, var) == Ok::<bool, PlanError>((x as int) < (y as int)),
        eval::bool_value(BoolExpr::Lte(Box::new(a), Box::new(b)).term(), w, var) == Ok::<bool, PlanError>((x as int) <= (y as int)),
        eval::bool_value(BoolExpr::Gt(Box::new(a), Box::new(b)).term(), w, var) == Ok::<bool, PlanError>((x as int) > (y as int)),
        eval::bool_value(BoolExpr::Gte(Box::new(a), Box::new(b)).term(), w, var) == Ok::<bool, PlanError>((x as int) >= (y as int)),
{
}

/// A comparison of byte strings holds exactly if they are the same, byte by byte.
pub proof fn lemma_bytes_equal(a: BytesExpr, b: BytesExpr, w: World, var: Option<u128>, x: Seq<u8>, y: Seq<u8>)
    requires
        eval::bytes_value(a.term(), w, var) == Ok::<Seq<u8>, PlanError>(x),
        eval::bytes_value(b.term(), w, var) == Ok::<Seq<u8>, PlanError>(y),
    ensures
        eval::bool_value(BoolExpr::BytesEq(Box::new(a), Box::new(b)).term(), w, var) == Ok::<bool, PlanError>(
            x.len() == y.len() && forall|i: int| 0 <= i < x.len() ==> x[i] == y[i],
        ),
{
    if x.len() == y.len() && (forall|i: int| 0 <= i < x.len() ==> x[i] == y[i]) {
        assert(x =~= y);
    }
}

/* ─────────────── numbers ─────────────── */

/// Sums, differences and products are those of the integers, modulo 2^128.
pub proof fn lemma_ring(a: NumExpr, b: NumExpr, w: World, var: Option<u128>, x: u128, y: u128)
    requires
        eval::num_value(a.term(), w, var) == Ok::<u128, PlanError>(x),
        eval::num_value(b.term(), w, var) == Ok::<u128, PlanError>(y),
    ensures
        eval::num_value(NumExpr::Add(Box::new(a), Box::new(b)).term(), w, var) matches Ok(r) && r as int
            == (x + y) % 0x1_0000_0000_0000_0000_0000_0000_0000_0000int,
        eval::num_value(NumExpr::Sub(Box::new(a), Box::new(b)).term(), w, var) matches Ok(r) && r as int
            == (x - y) % 0x1_0000_0000_0000_0000_0000_0000_0000_0000int,
        eval::num_value(NumExpr::Mul(Box::new(a), Box::new(b)).term(), w, var) matches Ok(r) && r as int
            == (x * y) % 0x1_0000_0000_0000_0000_0000_0000_0000_0000int,
{
    assert(0 <= x * y) by (nonlinear_arith)
        requires
            0 <= x,
            0 <= y,
    ;
}

/// Quotient and remainder rebuild the dividend, and the remainder is less than the
/// divisor. A divisor of zero is an error, whatever the dividend.
pub proof fn lemma_division(a: NumExpr, b: NumExpr, w: World, var: Option<u128>, y: u128)
    requires
        eval::num_value(b.term(), w, var) == Ok::<u128, PlanError>(y),
    ensures
        y == 0 ==> eval::num_value(NumExpr::Div(Box::new(a), Box::new(b)).term(), w, var) == Err::<u128, PlanError>(PlanError::DivisionByZero),
        y == 0 ==> eval::num_value(NumExpr::Mod(Box::new(a), Box::new(b)).term(), w, var) == Err::<u128, PlanError>(PlanError::ModuloByZero),
        y != 0 ==> (eval::num_value(a.term(), w, var) matches Ok(x) ==> {
            &&& eval::num_value(NumExpr::Div(Box::new(a), Box::new(b)).term(), w, var) is Ok
            &&& eval::num_value(NumExpr::Mod(Box::new(a), Box::new(b)).term(), w, var) is Ok
            &&& eval::num_value(NumExpr::Mod(Box::new(a), Box::new(b)).term(), w, var)->Ok_0 < y
            &&& eval::num_value(NumExpr::Div(Box::new(a), Box::new(b)).term(), w, var)->Ok_0 * y
                + eval::num_value(NumExpr::Mod(Box::new(a), Box::new(b)).term(), w, var)->Ok_0 == x
        }),
{
    if y != 0 {
        if let Ok(x) = eval::num_value(a.term(), w, var) {
            assert((x / y) * y + x % y == x && x % y < y) by (nonlinear_arith)
                requires
                    y > 0,
            ;
        }
    }
}

/// Bit `i` of a number.
pub open spec fn bit(x: u128, i: u128) -> bool {
    (x >> i) & 1 == 1
}

/// A shift moves the bits: to the right by `y` places bit `i` becomes the one that was at
/// `i + y`, to the left the one that was at `i - y`; what has no such place is zero, all of
/// it where the shift is by 128 places or more.
pub proof fn lemma_shifts(a: NumExpr, b: NumExpr, w: World, var: Option<u128>, x: u128, y: u128, i: u128)
    requires
        eval::num_value(a.term(), w, var) == Ok::<u128, PlanError>(x),
        eval::num_value(b.term(), w, var) == Ok::<u128, PlanError>(y),
        i < 128,
    ensures
        eval::num_value(NumExpr::Shr(Box::new(a), Box::new(b)).term(), w, var) matches Ok(r) && bit(r, i) == (y < 128 && i + y
            < 128 && bit(x, (i + y) as u128)),
        eval::num_value(NumExpr::Shl(Box::new(a), Box::new(b)).term(), w, var) matches Ok(r) && bit(r, i) == (y <= i && bit(
            x,
            (i - y) as u128,
        )),
{
    if y < 128 {
        if i + y < 128 {
            let j = (i + y) as u128;
            assert((((x >> y) >> i) & 1 == 1) == ((x >> j) & 1 == 1)) by (bit_vector)
                requires
                    i < 128,
                    y < 128,
                    j < 128,
                    j == i + y,
            ;
        } else {
            assert(!(((x >> y) >> i) & 1 == 1)) by (bit_vector)
                requires
                    i < 128,
                    y < 128,
                    i + y >= 128,
            ;
        }
        if y <= i {
            let j = (i - y) as u128;
            assert((((x << y) >> i) & 1 == 1) == ((x >> j) & 1 == 1)) by (bit_vector)
                requires
                    i < 128,
                    y <= i,
                    i == j + y,
            ;
        } else {
            assert(!(((x << y) >> i) & 1 == 1)) by (bit_vector)
                requires
                    i < 128,
                    y < 128,
                    i < y,
            ;
        }
    } else {
        assert(!((0u128 >> i) & 1 == 1)) by (bit_vector)
            requires
                i < 128,
        ;
    }
}

/// The bitwise operations work bit by bit.
pub proof fn lemma_bitwise(a: NumExpr, b: NumExpr, w: World, var: Option<u128>, x: u128, y: u128, i: u128)
    requires
        eval::num_value(a.term(), w, var) == Ok::<u128, PlanError>(x),
        eval::num_value(b.term(), w, var) == Ok::<u128, PlanError>(y),
        i < 128,
    ensures
        eval::num_value(NumExpr::And(Box::new(a), Box::new(b)).term(), w, var) matches Ok(r) && bit(r, i) == (bit(x, i) && bit(y, i)),
        eval::num_value(NumExpr::Or(Box::new(a), Box::new(b)).term(), w, var) matches Ok(r) && bit(r, i) == (bit(x, i) || bit(y, i)),
        eval::num_value(NumExpr::Xor(Box::new(a), Box::new(b)).term(), w, var) matches Ok(r) && bit(r, i) == (bit(x, i) != bit(y, i)),
{
    assert((((x & y) >> i) & 1 == 1) == ((x >> i) & 1 == 1 && (y >> i) & 1 == 1)) by (bit_vector)
        requires
            i < 128,
    ;
    assert((((x | y) >> i) & 1 == 1) == ((x >> i) & 1 == 1 || (y >> i) & 1 == 1)) by (bit_vector)
        requires
            i < 128,
    ;
    assert((((x ^ y) >> i) & 1 == 1) == (((x >> i) & 1 == 1) != ((y >> i) & 1 == 1))) by (bit_vector)
        requires
            i < 128,
    ;
}

/// An operation with an operand that fails fails, with the error of one that does; a
/// divisor that is zero is the one other cause.
pub proof fn lemma_operand_fails(a: NumExpr, b: NumExpr, w: World, var: Option<u128>, op: term::NumOp)
    requires
        eval::num_value(a.term(), w, var) is Err || eval::num_value(b.term(), w, var) is Err,
    ensures
        eval::num_value(term::op_term(op, a.term(), b.term()), w, var) matches Err(x) && (eval::num_value(a.term(), w, var)
            == Err::<u128, PlanError>(x) || eval::num_value(b.term(), w, var) == Err::<u128, PlanError>(x)
            || eval::num_value(b.term(), w, var) == Ok::<u128, PlanError>(0)),
{
}

/// The leaves: a constant is itself, a word is that of the input if it is there, the height
/// is that of the world, and the variable is that of the innermost loop.
pub proof fn lemma_number_leaves(n: u128, i: u32, w: World, var: Option<u128>)
    ensures
        eval::num_value(NumExpr::Const(n).term(), w, var) == Ok::<u128, PlanError>(n),
        i < w.words.len() ==> eval::num_value(NumExpr::Word(i).term(), w, var) == Ok::<u128, PlanError>(w.words[i as int]),
        i >= w.words.len() ==> eval::num_value(NumExpr::Word(i).term(), w, var) == Err::<u128, PlanError>(PlanError::MissingWord(i)),
        eval::num_value(NumExpr::Height.term(), w, var) matches Ok(h) && h == w.height,
        eval::num_value(NumExpr::Var.term(), w, Some(n)) == Ok::<u128, PlanError>(n),
        eval::num_value(NumExpr::Var.term(), w, None) == Err::<u128, PlanError>(PlanError::NoLoop),
{
}

/// The length of a byte string that a computer holds is counted, and its number is that of
/// at most its first 16 bytes, the lowest first: what comes after them does not matter, and
/// a byte in front shifts the rest by a factor of 256.
pub proof fn lemma_measures(e: BytesExpr, w: World, var: Option<u128>, b: Seq<u8>)
    requires
        eval::bytes_value(e.term(), w, var) == Ok::<Seq<u8>, PlanError>(b),
    ensures
        b.len() <= usize::MAX ==> (eval::num_value(NumExpr::Len(Box::new(e)).term(), w, var) matches Ok(n) && n == b.len()),
        eval::num_value(NumExpr::ULe(Box::new(e)).term(), w, var) is Ok,
        b.len() == 0 ==> eval::num_value(NumExpr::ULe(Box::new(e)).term(), w, var) == Ok::<u128, PlanError>(0),
        0 < b.len() <= 16 ==> eval::num_value(NumExpr::ULe(Box::new(e)).term(), w, var)->Ok_0 == b[0] + 256
            * eval::num_value(NumTerm::ULe(Box::new(BytesTerm::Const(b.drop_first()))), w, var)->Ok_0,
        b.len() > 16 ==> eval::num_value(NumExpr::ULe(Box::new(e)).term(), w, var) == eval::num_value(
            NumTerm::ULe(Box::new(BytesTerm::Const(b.take(16)))),
            w,
            var,
        ),
{
    reveal_with_fuel(eval::num_value, 2);
    reveal_with_fuel(eval::bytes_value, 2);
    bytes::lemma_pow256_16();
    if b.len() <= 16 {
        bytes::lemma_le_num_bound(b);
        bytes::lemma_pow256_mono(b.len(), 16);
        if b.len() > 0 {
            bytes::lemma_le_num_bound(b.drop_first());
            bytes::lemma_pow256_mono(b.drop_first().len(), 16);
        }
    } else {
        assert(b.take(16).len() == 16);
        assert(eval::bytes_value(BytesTerm::Const(b.take(16)), w, var) == Ok::<Seq<u8>, PlanError>(b.take(16)));
    }
}

/* ─────────────── byte strings ─────────────── */

/// A number written in `width` bytes has so many of them, and reads as the number modulo
/// 256^width; more than 16 bytes are an error.
pub proof fn lemma_written_number(e: NumExpr, width: u8, w: World, var: Option<u128>, n: u128)
    requires
        eval::num_value(e.term(), w, var) == Ok::<u128, PlanError>(n),
    ensures
        width > 16 ==> eval::bytes_value(BytesExpr::Le { of: Box::new(e), width }.term(), w, var) == Err::<Seq<u8>, PlanError>(
            PlanError::Width(width),
        ),
        width <= 16 ==> (eval::bytes_value(BytesExpr::Le { of: Box::new(e), width }.term(), w, var) matches Ok(b) && {
            &&& b.len() == width
            &&& bytes::le_num(b) as int == (n as int) % (bytes::pow256(width as nat) as int)
            &&& forall|i: int| 0 <= i < width ==> (#[trigger] b[i]) as int == ((n as int) / (bytes::pow256(i as nat) as int)) % 256
        }),
{
    if width <= 16 {
        bytes::lemma_le_bytes_len(n as int, width as nat);
        bytes::lemma_le_num_low(n as int, width as nat);
        assert forall|i: int| 0 <= i < width implies (#[trigger] bytes::le_bytes(n as int, width as nat)[i]) as int == ((n as int) / (
        bytes::pow256(i as nat) as int)) % 256 by {
            bytes::lemma_le_bytes_at(n as int, width as nat, i as nat);
        }
    }
}

/// What is stored at a key is read; a key that is not set reads as no bytes.
pub proof fn lemma_stored(e: BytesExpr, w: World, var: Option<u128>, key: Seq<u8>)
    requires
        eval::bytes_value(e.term(), w, var) == Ok::<Seq<u8>, PlanError>(key),
    ensures
        w.storage.dom().contains(key) ==> eval::bytes_value(BytesExpr::Storage(Box::new(e)).term(), w, var) == Ok::<
            Seq<u8>,
            PlanError,
        >(w.storage[key]),
        !w.storage.dom().contains(key) ==> (eval::bytes_value(BytesExpr::Storage(Box::new(e)).term(), w, var) matches Ok(b)
            && b.len() == 0),
{
}

/// A constant is its bytes.
pub proof fn lemma_constant(b: Vec<u8>, w: World, var: Option<u128>)
    ensures
        eval::bytes_value(BytesExpr::Const(b).term(), w, var) == Ok::<Seq<u8>, PlanError>(b@),
{
}

/// The calldata is the input words, 16 bytes each, the lowest first. A range of it begins
/// at its start and goes on for its length, or as far as the calldata goes; one that starts
/// beyond the end is an error.
pub proof fn lemma_calldata(start: u32, len: Option<u32>, w: World, var: Option<u128>)
    ensures
        start > 16 * w.words.len() ==> eval::bytes_value(BytesExpr::Calldata { start, len }.term(), w, var) == Err::<
            Seq<u8>,
            PlanError,
        >(PlanError::CalldataRange { start }),
        start <= 16 * w.words.len() ==> (eval::bytes_value(BytesExpr::Calldata { start, len }.term(), w, var) matches Ok(b) && {
            &&& b.len() == (match len {
                Some(l) => if l <= 16 * w.words.len() - start { l as int } else { 16 * w.words.len() - start },
                None => 16 * w.words.len() - start,
            })
            &&& forall|i: int| 0 <= i < b.len() ==> (#[trigger] b[i]) as int == ((w.words[(start + i) / 16] as int) / (bytes::pow256(
                ((start + i) % 16) as nat,
            ) as int)) % 256
        }),
{
    bytes::lemma_words_bytes_len(w.words);
    if start <= 16 * w.words.len() {
        let b = eval::bytes_value(BytesExpr::Calldata { start, len }.term(), w, var)->Ok_0;
        assert forall|i: int| 0 <= i < b.len() implies (#[trigger] b[i]) as int == ((w.words[(start + i) / 16] as int) / (bytes::pow256(
            ((start + i) % 16) as nat,
        ) as int)) % 256 by {
            assert(b[i] == bytes::words_bytes(w.words)[start + i]);
            bytes::lemma_words_bytes_byte(w.words, start + i);
        }
    }
}

/// A concatenation of none is empty; else it is what its first parts give, followed by what
/// the last one gives, and the first error comes through.
pub proof fn lemma_concat(parts: Vec<BytesExpr>, more: Vec<BytesExpr>, last: BytesExpr, w: World, var: Option<u128>)
    requires
        more@ == parts@.push(last),
    ensures
        parts@.len() == 0 ==> eval::bytes_value(BytesExpr::Concat(parts).term(), w, var) == Ok::<Seq<u8>, PlanError>(Seq::empty()),
        match (eval::bytes_value(BytesExpr::Concat(parts).term(), w, var), eval::bytes_value(last.term(), w, var)) {
            (Err(x), _) => eval::bytes_value(BytesExpr::Concat(more).term(), w, var) == Err::<Seq<u8>, PlanError>(x),
            (Ok(_), Err(x)) => eval::bytes_value(BytesExpr::Concat(more).term(), w, var) == Err::<Seq<u8>, PlanError>(x),
            (Ok(a), Ok(b)) => eval::bytes_value(BytesExpr::Concat(more).term(), w, var) == Ok::<Seq<u8>, PlanError>(a + b),
        },
{
    let ts = term::bytes_terms(parts@);
    let us = term::bytes_terms(more@);
    assert(BytesExpr::Concat(parts).term() == BytesTerm::Concat(ts));
    assert(BytesExpr::Concat(more).term() == BytesTerm::Concat(us));
    assert(us.drop_last() =~= ts);
    assert(us.last() == last.term());
    assert(eval::bytes_value(BytesTerm::Concat(ts), w, var) == eval::concat_value(ts, w, var));
    assert(eval::bytes_value(BytesTerm::Concat(us), w, var) == eval::concat_value(us, w, var));
}

/// A slice within its bytes is the bytes from its start on, as many as its length; one that
/// reaches beyond is an error.
pub proof fn lemma_slice(e: BytesExpr, start: NumExpr, len: NumExpr, w: World, var: Option<u128>, b: Seq<u8>, s: u128, l: u128)
    requires
        eval::bytes_value(e.term(), w, var) == Ok::<Seq<u8>, PlanError>(b),
        eval::num_value(start.term(), w, var) == Ok::<u128, PlanError>(s),
        eval::num_value(len.term(), w, var) == Ok::<u128, PlanError>(l),
        s <= usize::MAX,
        l <= usize::MAX,
    ensures
        ({
            let v = eval::bytes_value(BytesExpr::Slice { of: Box::new(e), start: Box::new(start), len: Box::new(len) }.term(), w, var);
            if s + l <= b.len() {
                v matches Ok(c) && c.len() == l && forall|i: int| 0 <= i < l ==> #[trigger] c[i] == b[s + i]
            } else {
                v matches Err(PlanError::SliceRange { start, len, total }) && start == s && len == l
            }
        }),
{
}

/// The number that a hex digit stands for.
pub open spec fn hex_digit(c: u8) -> int {
    if 48 <= c <= 57 {
        c - 48
    } else if 97 <= c <= 102 {
        c - 87
    } else {
        -1
    }
}

/// Whether two digits stand for byte `i`, the high one first.
pub open spec fn hex_pair(h: Seq<u8>, b: Seq<u8>, i: int) -> bool {
    &&& 0 <= hex_digit(h[2 * i]) < 16
    &&& 0 <= hex_digit(h[2 * i + 1]) < 16
    &&& b[i] as int == 16 * hex_digit(h[2 * i]) + hex_digit(h[2 * i + 1])
}

/// Hex has two lowercase digits for each byte, the high one first.
pub proof fn lemma_hex(e: BytesExpr, w: World, var: Option<u128>, b: Seq<u8>)
    requires
        eval::bytes_value(e.term(), w, var) == Ok::<Seq<u8>, PlanError>(b),
    ensures
        eval::bytes_value(BytesExpr::Hex(Box::new(e)).term(), w, var) matches Ok(h) && h.len() == 2 * b.len() && forall|i: int|
            0 <= i < b.len() ==> #[trigger] hex_pair(h, b, i),
{
    lemma_hex_bytes(b);
    assert(eval::bytes_value(BytesTerm::Hex(Box::new(e.term())), w, var) == Ok::<Seq<u8>, PlanError>(eval::hex_bytes(b)));
}

proof fn lemma_hex_bytes(b: Seq<u8>)
    ensures
        eval::hex_bytes(b).len() == 2 * b.len(),
        forall|i: int| 0 <= i < b.len() ==> #[trigger] hex_pair(eval::hex_bytes(b), b, i),
    decreases b.len(),
{
    if b.len() > 0 {
        lemma_hex_bytes(b.drop_last());
        let h = eval::hex_bytes(b);
        let g = eval::hex_bytes(b.drop_last());
        assert forall|i: int| 0 <= i < b.len() implies #[trigger] hex_pair(h, b, i) by {
            if i < b.len() - 1 {
                assert(hex_pair(g, b.drop_last(), i));
                assert(h[2 * i] == g[2 * i]);
                assert(h[2 * i + 1] == g[2 * i + 1]);
            } else {
                assert(h[2 * i] == eval::hex_ascii(b[i] / 16));
                assert(h[2 * i + 1] == eval::hex_ascii(b[i] % 16));
            }
        }
    }
}

/// The number that decimal digits stand for, the highest first.
pub open spec fn digits_number(d: Seq<u8>) -> int
    decreases d.len(),
{
    if d.len() == 0 {
        0
    } else {
        10 * digits_number(d.drop_last()) + (d.last() - 48)
    }
}

/// A decimal is made of digits that stand for the number, and begins with no zero unless it
/// is one.
pub proof fn lemma_decimal(e: NumExpr, w: World, var: Option<u128>, n: u128)
    requires
        eval::num_value(e.term(), w, var) == Ok::<u128, PlanError>(n),
    ensures
        eval::bytes_value(BytesExpr::Decimal(Box::new(e)).term(), w, var) matches Ok(d) && {
            &&& d.len() > 0
            &&& forall|i: int| 0 <= i < d.len() ==> 48 <= #[trigger] d[i] <= 57
            &&& digits_number(d) == n
            &&& d[0] == 48 ==> n == 0
        },
{
    lemma_decimal_ascii(n as int);
}

proof fn lemma_decimal_ascii(n: int)
    requires
        n >= 0,
    ensures
        eval::decimal_ascii(n).len() > 0,
        forall|i: int| 0 <= i < eval::decimal_ascii(n).len() ==> 48 <= #[trigger] eval::decimal_ascii(n)[i] <= 57,
        digits_number(eval::decimal_ascii(n)) == n,
        eval::decimal_ascii(n)[0] == 48 ==> n == 0,
        eval::decimal_ascii(n)[0] == 48 ==> eval::decimal_ascii(n).len() == 1,
    decreases n,
{
    let d = eval::decimal_ascii(n);
    if n < 10 {
        reveal_with_fuel(digits_number, 2);
        assert(d.drop_last() =~= Seq::empty());
    } else {
        lemma_decimal_ascii(n / 10);
        assert(d.drop_last() =~= eval::decimal_ascii(n / 10));
        assert(d[0] == eval::decimal_ascii(n / 10)[0]);
    }
}

/// Errors come through: an expression of an operand that fails fails with its error.
pub proof fn lemma_bytes_errors(e: BytesExpr, f: NumExpr, g: NumExpr, width: u8, w: World, var: Option<u128>)
    ensures
        eval::bytes_value(e.term(), w, var) matches Err(x) ==> {
            &&& eval::bytes_value(BytesExpr::Storage(Box::new(e)).term(), w, var) == Err::<Seq<u8>, PlanError>(x)
            &&& eval::bytes_value(BytesExpr::Hex(Box::new(e)).term(), w, var) == Err::<Seq<u8>, PlanError>(x)
            &&& eval::bytes_value(BytesExpr::Slice { of: Box::new(e), start: Box::new(f), len: Box::new(g) }.term(), w, var) == Err::<
                Seq<u8>,
                PlanError,
            >(x)
            &&& eval::num_value(NumExpr::ULe(Box::new(e)).term(), w, var) == Err::<u128, PlanError>(x)
            &&& eval::num_value(NumExpr::Len(Box::new(e)).term(), w, var) == Err::<u128, PlanError>(x)
        },
        eval::num_value(f.term(), w, var) matches Err(x) ==> {
            &&& eval::bytes_value(BytesExpr::Le { of: Box::new(f), width }.term(), w, var) == Err::<Seq<u8>, PlanError>(x)
            &&& eval::bytes_value(BytesExpr::Decimal(Box::new(f)).term(), w, var) == Err::<Seq<u8>, PlanError>(x)
            &&& eval::bytes_value(BytesExpr::Loop { count: Box::new(f), body: Box::new(e) }.term(), w, var) == Err::<
                Seq<u8>,
                PlanError,
            >(x)
        },
{
}

/// A conditional expression is the branch that its condition chooses.
pub proof fn lemma_conditionals(c: BoolExpr, a: BytesExpr, b: BytesExpr, m: NumExpr, n: NumExpr, w: World, var: Option<u128>)
    ensures
        match eval::bool_value(c.term(), w, var) {
            Err(x) => {
                &&& eval::bytes_value(BytesExpr::If { cond: Box::new(c), if_true: Box::new(a), if_false: Box::new(b) }.term(), w, var)
                    == Err::<Seq<u8>, PlanError>(x)
                &&& eval::num_value(NumExpr::If { cond: Box::new(c), if_true: Box::new(m), if_false: Box::new(n) }.term(), w, var)
                    == Err::<u128, PlanError>(x)
            },
            Ok(v) => {
                &&& eval::bytes_value(BytesExpr::If { cond: Box::new(c), if_true: Box::new(a), if_false: Box::new(b) }.term(), w, var)
                    == eval::bytes_value(if v { a.term() } else { b.term() }, w, var)
                &&& eval::num_value(NumExpr::If { cond: Box::new(c), if_true: Box::new(m), if_false: Box::new(n) }.term(), w, var)
                    == eval::num_value(if v { m.term() } else { n.term() }, w, var)
            },
        },
{
}

/// A loop of no rounds is empty, and one more round appends what the body gives with the
/// variable at the number of rounds before, as long as they are at most 65536.
pub proof fn lemma_loop_grows(body: BytesExpr, w: World, var: Option<u128>, n: u128, a: Seq<u8>, b: Seq<u8>)
    requires
        n < 65536,
        eval::bytes_value(BytesTerm::Loop { count: Box::new(NumTerm::Const(n)), body: Box::new(body.term()) }, w, var) == Ok::<
            Seq<u8>,
            PlanError,
        >(a),
        eval::bytes_value(body.term(), w, Some(n)) == Ok::<Seq<u8>, PlanError>(b),
    ensures
        n == 0 ==> a.len() == 0,
        eval::bytes_value(
            BytesExpr::Loop { count: Box::new(NumExpr::Const((n + 1) as u128)), body: Box::new(body) }.term(),
            w,
            var,
        ) == Ok::<Seq<u8>, PlanError>(a + b),
{
    assert(LOOP_LIMIT == 65536);
    reveal_with_fuel(eval::loop_value, 2);
    let t = body.term();
    assert(eval::num_value(NumTerm::Const(n), w, var) == Ok::<u128, PlanError>(n));
    assert(eval::bytes_value(BytesTerm::Loop { count: Box::new(NumTerm::Const(n)), body: Box::new(t) }, w, var)
        == eval::loop_value(t, w, n as nat));
    let m = (n + 1) as u128;
    assert(eval::num_value(NumTerm::Const(m), w, var) == Ok::<u128, PlanError>(m));
    assert(eval::bytes_value(BytesTerm::Loop { count: Box::new(NumTerm::Const(m)), body: Box::new(t) }, w, var)
        == eval::loop_value(t, w, m as nat));
    assert(NumExpr::Const(m).term() == NumTerm::Const(m));
    assert(eval::loop_value(t, w, (n + 1) as nat) == Ok::<Seq<u8>, PlanError>(a + b));
}

/// A loop of more than 65536 rounds is an error; one of no more is none of that kind.
pub proof fn lemma_loop_limit(count: NumExpr, body: BytesExpr, w: World, var: Option<u128>, n: u128)
    requires
        eval::num_value(count.term(), w, var) == Ok::<u128, PlanError>(n),
    ensures
        n > 65536 ==> eval::bytes_value(BytesExpr::Loop { count: Box::new(count), body: Box::new(body) }.term(), w, var) == Err::<
            Seq<u8>,
            PlanError,
        >(PlanError::LoopCount(n)),
        n == 0 ==> eval::bytes_value(BytesExpr::Loop { count: Box::new(count), body: Box::new(body) }.term(), w, var) == Ok::<
            Seq<u8>,
            PlanError,
        >(Seq::empty()),
{
    reveal_with_fuel(eval::bytes_value, 2);
    reveal_with_fuel(eval::loop_value, 2);
}

} // verus!
