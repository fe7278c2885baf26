//! What the integer operations of the interpreter promise.
use vstd::prelude::*;
use crate::analysis::lift::machine;
use crate::analysis::lift::machine::Fault;
use crate::analysis::lift::op::IntOp;

verus! {

/* ─────────────── 32 bits ─────────────── */

/// Sums, differences and products of 32 bits are those of the integers, modulo 2^32, and
/// never faults.
pub proof fn lemma_ring32(a: u32, b: u32)
    ensures
        machine::int32(IntOp::Add, a, b) matches Ok(r) && r as int == (a + b) % 0x1_0000_0000,
        machine::int32(IntOp::Sub, a, b) matches Ok(r) && r as int == (a - b) % 0x1_0000_0000,
        machine::int32(IntOp::Mul, a, b) matches Ok(r) && r as int == (a * b) % 0x1_0000_0000,
{
    assert(0 <= a * b) by (nonlinear_arith);
}

/// Unsigned quotient and remainder rebuild the dividend; a divisor of zero is a fault.
pub proof fn lemma_unsigned_division32(a: u32, b: u32)
    ensures
        b == 0 ==> machine::int32(IntOp::DivU, a, b) == Err::<u32, Fault>(Fault::DivisionByZero),
        b == 0 ==> machine::int32(IntOp::RemU, a, b) == Err::<u32, Fault>(Fault::RemainderByZero),
        b != 0 ==> (machine::int32(IntOp::DivU, a, b) matches Ok(q) && (machine::int32(IntOp::RemU, a, b) matches Ok(r) && r < b && q * b + r == a)),
{
    if b != 0 {
        assert((a / b) * b + a % b == a && a % b < b) by (nonlinear_arith)
            requires
                b > 0,
        ;
    }
}

proof fn lemma_towards_zero(x: int, y: int)
    requires
        y != 0,
    ensures
        x == machine::quotient(x, y) * y + machine::remainder(x, y),
        machine::magnitude(machine::remainder(x, y)) < machine::magnitude(y),
        machine::remainder(x, y) == 0 || (machine::remainder(x, y) < 0) == (x < 0),
        machine::magnitude(machine::quotient(x, y)) <= machine::magnitude(x),
        machine::magnitude(y) >= 2 ==> 2 * machine::magnitude(machine::quotient(x, y)) <= machine::magnitude(x),
{
    let m = machine::magnitude(x);
    let d = machine::magnitude(y);
    let q = m / d;
    let r = m % d;
    assert(q * d + r == m && 0 <= r < d && 0 <= q <= m && (d >= 2 ==> 2 * q <= m)) by (nonlinear_arith)
        requires
            d > 0,
            m >= 0,
            q == m / d,
            r == m % d,
    ;
    assert((-q) * d == -(q * d) && q * (-d) == -(q * d) && (-q) * (-d) == q * d) by (nonlinear_arith);
}

/// Signed quotient and remainder rebuild the dividend, the quotient rounded towards zero
/// and the remainder with the dividend's sign. A divisor of zero is a fault, and so is
/// the one quotient that 32 bits do not hold.
pub proof fn lemma_signed_division32(a: u32, b: u32)
    ensures
        b == 0 ==> machine::int32(IntOp::DivS, a, b) == Err::<u32, Fault>(Fault::DivisionByZero),
        b == 0 ==> machine::int32(IntOp::RemS, a, b) == Err::<u32, Fault>(Fault::RemainderByZero),
        b != 0 ==> (machine::int32(IntOp::DivS, a, b) == Err::<u32, Fault>(Fault::QuotientOverflow) <==> a as i32 == i32::MIN && b as i32 == -1),
        b != 0 ==> machine::int32(IntOp::RemS, a, b) is Ok,
        b != 0 && !(a as i32 == i32::MIN && b as i32 == -1) ==> {
            let (q, r) = (
                machine::int32(IntOp::DivS, a, b)->Ok_0 as i32 as int,
                machine::int32(IntOp::RemS, a, b)->Ok_0 as i32 as int,
            );
            &&& machine::int32(IntOp::DivS, a, b) is Ok
            &&& q * (b as i32) + r == a as i32
            &&& machine::magnitude(r) < machine::magnitude(b as i32 as int)
            &&& r == 0 || (r < 0) == ((a as i32) < 0)
        },
{
    let (x, y) = (a as i32, b as i32);
    lemma_back32(x, b);
    if y != 0 {
        lemma_towards_zero(x as int, y as int);
        let q = machine::quotient(x as int, y as int);
        let r = machine::remainder(x as int, y as int);
        if q <= i32::MAX {
            lemma_back32(q as i32, b);
        }
        lemma_back32(r as i32, b);
    }
}

proof fn lemma_back32(x: i32, b: u32)
    by (bit_vector)
    ensures
        (x as u32) as i32 == x,
        b == 0 <==> b as i32 == 0,
{
}

/// Tests give one or zero: signed ones by the signed numbers, unsigned ones by the
/// unsigned.
pub proof fn lemma_tests32(a: u32, b: u32)
    ensures
        machine::int32(IntOp::Eqz, a, b) == Ok::<u32, Fault>(if a == 0 { 1 } else { 0 }),
        machine::int32(IntOp::Eq, a, b) == Ok::<u32, Fault>(if a == b { 1 } else { 0 }),
        machine::int32(IntOp::Ne, a, b) == Ok::<u32, Fault>(if a == b { 0 } else { 1 }),
        machine::int32(IntOp::LtU, a, b) == Ok::<u32, Fault>(if a < b { 1 } else { 0 }),
        machine::int32(IntOp::GtU, a, b) == machine::int32(IntOp::LtU, b, a),
        machine::int32(IntOp::LeU, a, b) == Ok::<u32, Fault>(if b < a { 0 } else { 1 }),
        machine::int32(IntOp::GeU, a, b) == machine::int32(IntOp::LeU, b, a),
        machine::int32(IntOp::LtS, a, b) == Ok::<u32, Fault>(if (a as i32) < (b as i32) { 1 } else { 0 }),
        machine::int32(IntOp::GtS, a, b) == machine::int32(IntOp::LtS, b, a),
        machine::int32(IntOp::LeS, a, b) == Ok::<u32, Fault>(if (b as i32) < (a as i32) { 0 } else { 1 }),
        machine::int32(IntOp::GeS, a, b) == machine::int32(IntOp::LeS, b, a),
{
}

proof fn lemma_shifted32(a: u32, k: u32, i: u32)
    by (bit_vector)
    requires
        k < 32,
        i < 32,
    ensures
        ((a << k) >> i) & 1 == if i >= k { (a >> ((i - k) as u32)) & 1 } else { 0 },
        ((a >> k) >> i) & 1 == if i + k < 32 { (a >> ((i + k) as u32)) & 1 } else { 0 },
        ((((a as i32) >> k) as u32) >> i) & 1 == if i + k < 32 { (a >> ((i + k) as u32)) & 1 } else { (a >> 31) & 1 },
        k > 0 ==> (((a << k) | (a >> ((32 - k) as u32))) >> i) & 1 == (a >> (if i >= k { (i - k) as u32 } else { (i + 32 - k) as u32 })) & 1,
        k > 0 ==> (((a >> k) | (a << ((32 - k) as u32))) >> i) & 1 == (a >> (if i + k < 32 { (i + k) as u32 } else { (i + k - 32) as u32 })) & 1,
{
}

/// Bit `i` of a number.
pub open spec fn bit32(a: u32, i: int) -> u32 {
    (a >> (i as u32)) & 1
}

/// A shift of 32 bits goes by the second operand modulo 32, and moves the bits by so many
/// places: zeros come in, or the sign where a signed number is shifted right. A rotation
/// moves them around.
pub proof fn lemma_shifts32(a: u32, b: u32, i: int)
    requires
        0 <= i < 32,
    ensures
        machine::int32(IntOp::Shl, a, b) matches Ok(r) && bit32(r, i) == if i >= b % 32 { bit32(a, i - b % 32) } else { 0 },
        machine::int32(IntOp::ShrU, a, b) matches Ok(r) && bit32(r, i) == if i + b % 32 < 32 { bit32(a, i + b % 32) } else { 0 },
        machine::int32(IntOp::ShrS, a, b) matches Ok(r) && bit32(r, i) == if i + b % 32 < 32 { bit32(a, i + b % 32) } else { bit32(a, 31) },
        machine::int32(IntOp::Rotl, a, b) matches Ok(r) && bit32(r, i) == bit32(a, (i - b % 32) % 32),
        machine::int32(IntOp::Rotr, a, b) matches Ok(r) && bit32(r, i) == bit32(a, (i + b % 32) % 32),
{
    let k = b % 32;
    lemma_shifted32(a, k, i as u32);
    if k == 0 {
        assert(i % 32 == i);
    } else if i >= k {
        assert((i - k) % 32 == i - k);
    } else {
        assert((i - k) % 32 == i - k + 32) by (nonlinear_arith)
            requires
                0 <= i < k < 32,
        ;
    }
    assert((i + k) % 32 == if i + k < 32 { i + k } else { i + k - 32 });
}

/// Bitwise operations of 32 bits work bit by bit.
pub proof fn lemma_bitwise32(a: u32, b: u32)
    ensures
        machine::int32(IntOp::And, a, b) == Ok::<u32, Fault>(a & b),
        machine::int32(IntOp::Or, a, b) == Ok::<u32, Fault>(a | b),
        machine::int32(IntOp::Xor, a, b) == Ok::<u32, Fault>(a ^ b),
{
}

/* ─────────────── 64 bits ─────────────── */

/// Sums, differences and products of 64 bits are those of the integers, modulo 2^64, and
/// never faults.
pub proof fn lemma_ring64(a: u64, b: u64)
    ensures
        machine::int64(IntOp::Add, a, b) matches Ok(r) && r as int == (a + b) % 0x1_0000_0000_0000_0000,
        machine::int64(IntOp::Sub, a, b) matches Ok(r) && r as int == (a - b) % 0x1_0000_0000_0000_0000,
        machine::int64(IntOp::Mul, a, b) matches Ok(r) && r as int == (a * b) % 0x1_0000_0000_0000_0000,
{
    assert(0 <= a * b) by (nonlinear_arith);
}

/// Unsigned quotient and remainder rebuild the dividend; a divisor of zero is a fault.
pub proof fn lemma_unsigned_division64(a: u64, b: u64)
    ensures
        b == 0 ==> machine::int64(IntOp::DivU, a, b) == Err::<u64, Fault>(Fault::DivisionByZero),
        b == 0 ==> machine::int64(IntOp::RemU, a, b) == Err::<u64, Fault>(Fault::RemainderByZero),
        b != 0 ==> (machine::int64(IntOp::DivU, a, b) matches Ok(q) && (machine::int64(IntOp::RemU, a, b) matches Ok(r) && r < b && q * b + r == a)),
{
    if b != 0 {
        assert((a / b) * b + a % b == a && a % b < b) by (nonlinear_arith)
            requires
                b > 0,
        ;
    }
}

/// Signed quotient and remainder rebuild the dividend, the quotient rounded towards zero
/// and the remainder with the dividend's sign. A divisor of zero is a fault, and so is
/// the one quotient that 64 bits do not hold.
pub proof fn lemma_signed_division64(a: u64, b: u64)
    ensures
        b == 0 ==> machine::int64(IntOp::DivS, a, b) == Err::<u64, Fault>(Fault::DivisionByZero),
        b == 0 ==> machine::int64(IntOp::RemS, a, b) == Err::<u64, Fault>(Fault::RemainderByZero),
        b != 0 ==> (machine::int64(IntOp::DivS, a, b) == Err::<u64, Fault>(Fault::QuotientOverflow) <==> a as i64 == i64::MIN && b as i64 == -1),
        b != 0 ==> machine::int64(IntOp::RemS, a, b) is Ok,
        b != 0 && !(a as i64 == i64::MIN && b as i64 == -1) ==> {
            let (q, r) = (
                machine::int64(IntOp::DivS, a, b)->Ok_0 as i64 as int,
                machine::int64(IntOp::RemS, a, b)->Ok_0 as i64 as int,
            );
            &&& machine::int64(IntOp::DivS, a, b) is Ok
            &&& q * (b as i64) + r == a as i64
            &&& machine::magnitude(r) < machine::magnitude(b as i64 as int)
            &&& r == 0 || (r < 0) == ((a as i64) < 0)
        },
{
    let (x, y) = (a as i64, b as i64);
    lemma_back64(x, b);
    if y != 0 {
        lemma_towards_zero(x as int, y as int);
        let q = machine::quotient(x as int, y as int);
        let r = machine::remainder(x as int, y as int);
        if q <= i64::MAX {
            lemma_back64(q as i64, b);
        }
        lemma_back64(r as i64, b);
    }
}

proof fn lemma_back64(x: i64, b: u64)
    by (bit_vector)
    ensures
        (x as u64) as i64 == x,
        b == 0 <==> b as i64 == 0,
        (b as u32) % 64 == b % 64,
{
}

/// Tests give one or zero: signed ones by the signed numbers, unsigned ones by the
/// unsigned.
pub proof fn lemma_tests64(a: u64, b: u64)
    ensures
        machine::int64(IntOp::Eqz, a, b) == Ok::<u64, Fault>(if a == 0 { 1 } else { 0 }),
        machine::int64(IntOp::Eq, a, b) == Ok::<u64, Fault>(if a == b { 1 } else { 0 }),
        machine::int64(IntOp::Ne, a, b) == Ok::<u64, Fault>(if a == b { 0 } else { 1 }),
        machine::int64(IntOp::LtU, a, b) == Ok::<u64, Fault>(if a < b { 1 } else { 0 }),
        machine::int64(IntOp::GtU, a, b) == machine::int64(IntOp::LtU, b, a),
        machine::int64(IntOp::LeU, a, b) == Ok::<u64, Fault>(if b < a { 0 } else { 1 }),
        machine::int64(IntOp::GeU, a, b) == machine::int64(IntOp::LeU, b, a),
        machine::int64(IntOp::LtS, a, b) == Ok::<u64, Fault>(if (a as i64) < (b as i64) { 1 } else { 0 }),
        machine::int64(IntOp::GtS, a, b) == machine::int64(IntOp::LtS, b, a),
        machine::int64(IntOp::LeS, a, b) == Ok::<u64, Fault>(if (b as i64) < (a as i64) { 0 } else { 1 }),
        machine::int64(IntOp::GeS, a, b) == machine::int64(IntOp::LeS, b, a),
{
}

proof fn lemma_shifted64(a: u64, k: u64, i: u64)
    by (bit_vector)
    requires
        k < 64,
        i < 64,
    ensures
        ((a << k) >> i) & 1 == if i >= k { (a >> ((i - k) as u64)) & 1 } else { 0 },
        ((a >> k) >> i) & 1 == if i + k < 64 { (a >> ((i + k) as u64)) & 1 } else { 0 },
        ((((a as i64) >> k) as u64) >> i) & 1 == if i + k < 64 { (a >> ((i + k) as u64)) & 1 } else { (a >> 63) & 1 },
        k > 0 ==> (((a << k) | (a >> ((64 - k) as u64))) >> i) & 1 == (a >> (if i >= k { (i - k) as u64 } else { (i + 64 - k) as u64 })) & 1,
        k > 0 ==> (((a >> k) | (a << ((64 - k) as u64))) >> i) & 1 == (a >> (if i + k < 64 { (i + k) as u64 } else { (i + k - 64) as u64 })) & 1,
{
}

/// Bit `i` of a number.
pub open spec fn bit64(a: u64, i: int) -> u64 {
    (a >> (i as u64)) & 1
}

/// A shift of 64 bits goes by the second operand modulo 64, and moves the bits by so many
/// places: zeros come in, or the sign where a signed number is shifted right. A rotation
/// moves them around.
pub proof fn lemma_shifts64(a: u64, b: u64, i: int)
    requires
        0 <= i < 64,
    ensures
        machine::int64(IntOp::Shl, a, b) matches Ok(r) && bit64(r, i) == if i >= b % 64 { bit64(a, i - b % 64) } else { 0 },
        machine::int64(IntOp::ShrU, a, b) matches Ok(r) && bit64(r, i) == if i + b % 64 < 64 { bit64(a, i + b % 64) } else { 0 },
        machine::int64(IntOp::ShrS, a, b) matches Ok(r) && bit64(r, i) == if i + b % 64 < 64 { bit64(a, i + b % 64) } else { bit64(a, 63) },
        machine::int64(IntOp::Rotl, a, b) matches Ok(r) && bit64(r, i) == bit64(a, (i - b % 64) % 64),
        machine::int64(IntOp::Rotr, a, b) matches Ok(r) && bit64(r, i) == bit64(a, (i + b % 64) % 64),
{
    let k = b % 64;
    lemma_shifted64(a, k, i as u64);
    lemma_back64(0, b);
    if k == 0 {
        assert(i % 64 == i);
    } else if i >= k {
        assert((i - k) % 64 == i - k);
    } else {
        assert((i - k) % 64 == i - k + 64) by (nonlinear_arith)
            requires
                0 <= i < k < 64,
        ;
    }
    assert((i + k) % 64 == if i + k < 64 { i + k } else { i + k - 64 });
}

/// Bitwise operations of 64 bits work bit by bit.
pub proof fn lemma_bitwise64(a: u64, b: u64)
    ensures
        machine::int64(IntOp::And, a, b) == Ok::<u64, Fault>(a & b),
        machine::int64(IntOp::Or, a, b) == Ok::<u64, Fault>(a | b),
        machine::int64(IntOp::Xor, a, b) == Ok::<u64, Fault>(a ^ b),
{
}

} // verus!
