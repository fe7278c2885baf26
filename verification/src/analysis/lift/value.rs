//! Runtime values of the interpreter and the value stack.
use vstd::prelude::*;
use std::rc::Rc;
use crate::analysis::lift::machine;
use crate::analysis::lift::machine::{Fault, Datum};
use crate::analysis::lift::op::{Conversion, IntOp, Op};
use crate::analysis::lift::sym::{share, SymBool, SymNum};
use crate::plan::{BoolTerm, Comparison, NumOp, NumTerm};

verus! {

/// A concrete value with its symbolic tags.
pub struct Operand {
    /// Concrete bits (i32 held in the low 32).
    pub c: u64,
    /// Symbolic numeric tag, if derived from storage/height/calldata.
    pub s: Option<Rc<SymNum>>,
    /// Symbolic boolean tag (comparison results), for select/branch capture.
    pub b: Option<Rc<SymBool>>,
}

impl Clone for Operand {
    fn clone(&self) -> (r: Self)
        ensures
            r.val() == self.val(),
    {
        self.copy()
    }
}

/// What a numeric tag is.
pub open spec fn num_tag(s: Option<Rc<SymNum>>) -> Option<NumTerm> {
    match s {
        Some(s) => Some(s.term()),
        None => None,
    }
}

/// What a boolean tag is.
pub open spec fn bool_tag(b: Option<Rc<SymBool>>) -> Option<BoolTerm> {
    match b {
        Some(b) => Some(b.term()),
        None => None,
    }
}

fn share_num(s: &Option<Rc<SymNum>>) -> (r: Option<Rc<SymNum>>)
    ensures
        num_tag(r) == num_tag(*s),
{
    match s {
        Some(s) => Some(share(s)),
        None => None,
    }
}

fn share_bool(b: &Option<Rc<SymBool>>) -> (r: Option<Rc<SymBool>>)
    ensures
        bool_tag(r) == bool_tag(*b),
{
    match b {
        Some(b) => Some(share(b)),
        None => None,
    }
}

impl Operand {
    pub open spec fn val(self) -> Datum {
        Datum { c: self.c, s: num_tag(self.s), b: bool_tag(self.b) }
    }

    /// An untagged value.
    pub fn con(c: u64) -> (r: Operand)
        ensures
            r.val() == machine::con(c),
    {
        Operand { c, s: None, b: None }
    }

    /// A value with a numeric tag.
    pub fn num(c: u64, s: Option<Rc<SymNum>>) -> (r: Operand)
        ensures
            r.val() == machine::num(c, num_tag(s)),
    {
        Operand { c, s, b: None }
    }

    /// A value with a boolean tag.
    pub fn boolean(c: u64, b: Option<Rc<SymBool>>) -> (r: Operand)
        ensures
            r.val() == machine::boolean(c, bool_tag(b)),
    {
        Operand { c, s: None, b }
    }

    /// The same value, with handles on the same tags.
    pub fn copy(&self) -> (r: Operand)
        ensures
            r.val() == self.val(),
    {
        Operand { c: self.c, s: share_num(&self.s), b: share_bool(&self.b) }
    }

    /// The value's symbolic number. A comparison result carries a boolean tag
    /// but no numeric tag; when it's consumed as a number (a multi-precision
    /// carry `(sum < a) as u64`, say) it must stay symbolic as `If(cond,1,0)`,
    /// not collapse to its concrete 0/1: otherwise the surrounding arithmetic's
    /// structure would depend on the concrete input. Falls back to a constant
    /// only when the value is genuinely untagged.
    pub fn as_sym(&self) -> (r: Rc<SymNum>)
        ensures
            r.term() == machine::as_sym(self.val()),
    {
        let (one, zero) = (SymNum::Const(1).rc(), SymNum::Const(0).rc());
        assert(one.term() == NumTerm::Const(1));
        assert(zero.term() == NumTerm::Const(0));
        match &self.s {
            Some(s) => share(s),
            None => match &self.b {
                Some(b) => SymNum::If(share(b), one, zero).rc(),
                None => SymNum::Const(self.c as u128).rc(),
            },
        }
    }

    /// Whether the value carries any symbolic information (numeric or boolean).
    pub fn is_symbolic(&self) -> (r: bool)
        ensures
            r == machine::is_symbolic(self.val()),
    {
        self.s.is_some() || self.b.is_some()
    }

    /// The condition that a branch or a selection on the value depends on: its
    /// boolean tag, or that its numeric tag is not zero. A u128 comparison is
    /// lowered by the compiler to a word-select yielding a 0/1 *number* (not a
    /// bool), so branching on it must still count as a symbolic branch.
    pub fn condition(&self) -> (r: Option<Rc<SymBool>>)
        ensures
            bool_tag(r) == machine::condition(self.val()),
    {
        match (&self.b, &self.s) {
            (Some(b), _) => Some(share(b)),
            (None, Some(s)) => Some(SymBool::Ne(share(s), SymNum::Const(0).rc()).rc()),
            (None, None) => None,
        }
    }

    /// Whether the value, taken as a concrete condition, holds.
    pub fn holds(&self) -> (r: bool)
        ensures
            r == machine::holds(self.val()),
    {
        (self.c as u32) != 0
    }
}

/// The values of a stack.
pub open spec fn vals(vs: Seq<Operand>) -> Seq<Datum> {
    Seq::new(vs.len(), |i: int| vs[i].val())
}

/// Puts a value on a stack.
pub fn push(vs: &mut Vec<Operand>, v: Operand)
    ensures
        vals(final(vs)@) == vals(old(vs)@).push(v.val()),
{
    vs.push(v);
    assert(vals(vs@) =~= vals(old(vs)@).push(v.val()));
}

/// Takes a value from a stack.
pub fn pop(vs: &mut Vec<Operand>) -> (r: Option<Operand>)
    ensures
        match r {
            Some(v) => vals(old(vs)@).len() > 0 && v.val() == vals(old(vs)@).last()
                && vals(final(vs)@) == vals(old(vs)@).drop_last(),
            None => vals(old(vs)@).len() == 0 && vals(final(vs)@) == vals(old(vs)@),
        },
{
    let r = vs.pop();
    proof {
        if old(vs)@.len() > 0 {
            assert(vals(vs@) =~= vals(old(vs)@).drop_last());
        }
    }
    r
}

/// Takes the last `n` values from a stack, in stack order.
pub fn pop_many(vs: &mut Vec<Operand>, n: usize) -> (r: Option<Vec<Operand>>)
    ensures
        match r {
            Some(out) => vals(old(vs)@).len() >= n && vals(out@) == vals(old(vs)@).skip(
                vals(old(vs)@).len() - n,
            ) && vals(final(vs)@) == vals(old(vs)@).take(vals(old(vs)@).len() - n),
            None => vals(old(vs)@).len() < n,
        },
{
    if vs.len() < n {
        return None;
    }
    let at: usize = vs.len() - n;
    let out = vs.split_off(at);
    assert(vals(out@) =~= vals(old(vs)@).skip(at as int));
    assert(vals(vs@) =~= vals(old(vs)@).take(at as int));
    Some(out)
}

/// Puts several values on a stack, the first one first.
pub fn push_many(vs: &mut Vec<Operand>, more: Vec<Operand>)
    ensures
        vals(final(vs)@) == vals(old(vs)@) + vals(more@),
{
    let mut more = more;
    let ghost added = vals(more@);
    vs.append(&mut more);
    assert(vals(vs@) =~= vals(old(vs)@) + added);
}

/*──────────────────────── tags of results ────────────────────────*/

fn tag_of(op: NumOp, a: &Operand, b: &Operand) -> (r: Option<Rc<SymNum>>)
    ensures
        num_tag(r) == machine::op_tag(op, a.val(), b.val()),
{
    if !a.is_symbolic() && !b.is_symbolic() {
        return None;
    }
    let (x, y) = (a.as_sym(), b.as_sym());
    Some(
        match op {
            NumOp::Add => SymNum::Add(x, y),
            NumOp::Sub => SymNum::Sub(x, y),
            NumOp::Mul => SymNum::Mul(x, y),
            NumOp::Div => SymNum::Div(x, y),
            NumOp::Mod => SymNum::Mod(x, y),
            NumOp::Shr => SymNum::Shr(x, y),
            NumOp::Shl => SymNum::Shl(x, y),
            NumOp::And => SymNum::And(x, y),
            NumOp::Or => SymNum::Or(x, y),
            NumOp::Xor => SymNum::Xor(x, y),
        }.rc(),
    )
}

fn mask_tag(s: Option<Rc<SymNum>>, mask: u128) -> (r: Option<Rc<SymNum>>)
    ensures
        num_tag(r) == machine::masked(num_tag(s), mask),
{
    let all = SymNum::Const(mask).rc();
    assert(all.term() == NumTerm::Const(mask));
    match s {
        Some(s) => Some(SymNum::And(s, all).rc()),
        None => None,
    }
}

fn test_of(c: Comparison, a: &Operand, b: &Operand) -> (r: Option<Rc<SymBool>>)
    ensures
        bool_tag(r) == machine::compare_tag(c, a.val(), b.val()),
{
    if a.s.is_none() && b.s.is_none() {
        return None;
    }
    let (x, y) = (a.as_sym(), b.as_sym());
    Some(
        match c {
            Comparison::Eq => SymBool::Eq(x, y),
            Comparison::Ne => SymBool::Ne(x, y),
            Comparison::Lt => SymBool::Lt(x, y),
            Comparison::Lte => SymBool::Lte(x, y),
            Comparison::Gt => SymBool::Gt(x, y),
            Comparison::Gte => SymBool::Gte(x, y),
        }.rc(),
    )
}

fn is_zero_tag(s: &Option<Rc<SymNum>>) -> (r: Option<Rc<SymBool>>)
    ensures
        bool_tag(r) == machine::zero_tag(Comparison::Eq, num_tag(*s)),
{
    match s {
        Some(s) => Some(SymBool::Eq(share(s), SymNum::Const(0).rc()).rc()),
        None => None,
    }
}

/// The result of an integer operation with its tags.
fn tagged_result(op: IntOp, wide: bool, c: u64, a: &Operand, b: &Operand) -> (r: Operand)
    ensures
        r.val() == machine::int_tagged(op, wide, c, a.val(), b.val()),
{
    let mask: u128 = if wide { 0xffff_ffff_ffff_ffff } else { 0xffff_ffff };
    match op {
        IntOp::Add => Operand::num(c, mask_tag(tag_of(NumOp::Add, a, b), mask)),
        IntOp::Sub => Operand::num(c, mask_tag(tag_of(NumOp::Sub, a, b), mask)),
        IntOp::Mul => Operand::num(c, mask_tag(tag_of(NumOp::Mul, a, b), mask)),
        IntOp::Shl => Operand::num(c, mask_tag(tag_of(NumOp::Shl, a, b), mask)),
        IntOp::DivU => Operand::num(c, tag_of(NumOp::Div, a, b)),
        IntOp::RemU => Operand::num(c, tag_of(NumOp::Mod, a, b)),
        IntOp::And => Operand::num(c, tag_of(NumOp::And, a, b)),
        IntOp::Or => Operand::num(c, tag_of(NumOp::Or, a, b)),
        IntOp::Xor => Operand::num(c, tag_of(NumOp::Xor, a, b)),
        IntOp::ShrU => Operand::num(c, tag_of(NumOp::Shr, a, b)),
        IntOp::Eqz => Operand::boolean(c, is_zero_tag(&a.s)),
        IntOp::Eq => Operand::boolean(c, test_of(Comparison::Eq, a, b)),
        IntOp::Ne => Operand::boolean(c, test_of(Comparison::Ne, a, b)),
        IntOp::LtU => Operand::boolean(c, test_of(Comparison::Lt, a, b)),
        IntOp::GtU => Operand::boolean(c, test_of(Comparison::Gt, a, b)),
        IntOp::LeU => Operand::boolean(c, test_of(Comparison::Lte, a, b)),
        IntOp::GeU => Operand::boolean(c, test_of(Comparison::Gte, a, b)),
        _ => Operand::con(c),
    }
}

/*──────────────────────── bits ────────────────────────*/

fn count_ones(n: u64) -> (r: u32)
    ensures
        r == machine::ones(n as int),
        r <= 64,
{
    let mut rest: u64 = n;
    let mut count: u32 = 0;
    proof {
        vstd::arithmetic::power2::lemma2_to64();
        vstd::arithmetic::power2::lemma2_to64_rest();
        lemma_ones_bound(n as int, 64);
    }
    while rest > 0
        invariant
            count + machine::ones(rest as int) == machine::ones(n as int),
            0 <= machine::ones(rest as int),
            machine::ones(n as int) <= 64,
            vstd::arithmetic::power2::pow2(64) == 0x1_0000_0000_0000_0000,
        decreases rest,
    {
        proof {
            lemma_ones_bound(rest as int / 2, 64);
        }
        count = count + (rest % 2) as u32;
        rest = rest / 2;
    }
    count
}

proof fn lemma_ones_bound(n: int, k: nat)
    requires
        0 <= n < vstd::arithmetic::power2::pow2(k),
    ensures
        0 <= machine::ones(n) <= k,
    decreases k,
{
    if k == 0 {
        vstd::arithmetic::power2::lemma2_to64();
    } else {
        vstd::arithmetic::power2::lemma_pow2_unfold(k);
        if n > 0 {
            lemma_ones_bound(n / 2, (k - 1) as nat);
        }
    }
}

fn magnitude32(x: i32) -> (r: u64)
    ensures
        r == machine::magnitude(x as int),
{
    if x < 0 { (-(x as i64)) as u64 } else { x as u64 }
}

fn magnitude64(x: i64) -> (r: u128)
    ensures
        r == machine::magnitude(x as int),
{
    if x < 0 { (-(x as i128)) as u128 } else { x as u128 }
}

fn div32(x: i32, y: i32) -> (r: Result<u32, Fault>)
    requires
        y != 0,
    ensures
        r == machine::int32(IntOp::DivS, x as u32, y as u32),
{
    assert((x as u32) as i32 == x) by (bit_vector);
    assert((y as u32) as i32 == y) by (bit_vector);
    let (m, d) = (magnitude32(x), magnitude32(y));
    let q: u64 = m / d;
    assert(q <= m) by (nonlinear_arith)
        requires
            d > 0,
            q == m / d,
    ;
    if (x < 0) == (y < 0) {
        if q > 0x7fff_ffff {
            Err(Fault::QuotientOverflow)
        } else {
            Ok((q as i32) as u32)
        }
    } else {
        Ok(((-(q as i64)) as i32) as u32)
    }
}

fn rem32(x: i32, y: i32) -> (r: u32)
    requires
        y != 0,
    ensures
        Ok::<u32, Fault>(r) == machine::int32(IntOp::RemS, x as u32, y as u32),
{
    assert((x as u32) as i32 == x) by (bit_vector);
    assert((y as u32) as i32 == y) by (bit_vector);
    let m: u64 = magnitude32(x) % magnitude32(y);
    if x < 0 { ((-(m as i64)) as i32) as u32 } else { (m as i32) as u32 }
}

fn div64(x: i64, y: i64) -> (r: Result<u64, Fault>)
    requires
        y != 0,
    ensures
        r == machine::int64(IntOp::DivS, x as u64, y as u64),
{
    assert((x as u64) as i64 == x) by (bit_vector);
    assert((y as u64) as i64 == y) by (bit_vector);
    let (m, d) = (magnitude64(x), magnitude64(y));
    let q: u128 = m / d;
    assert(q <= m) by (nonlinear_arith)
        requires
            d > 0,
            q == m / d,
    ;
    if (x < 0) == (y < 0) {
        if q > 0x7fff_ffff_ffff_ffff {
            Err(Fault::QuotientOverflow)
        } else {
            Ok((q as i64) as u64)
        }
    } else {
        Ok(((-(q as i128)) as i64) as u64)
    }
}

fn rem64(x: i64, y: i64) -> (r: u64)
    requires
        y != 0,
    ensures
        Ok::<u64, Fault>(r) == machine::int64(IntOp::RemS, x as u64, y as u64),
{
    assert((x as u64) as i64 == x) by (bit_vector);
    assert((y as u64) as i64 == y) by (bit_vector);
    let m: u128 = magnitude64(x) % magnitude64(y);
    if x < 0 { ((-(m as i128)) as i64) as u64 } else { (m as i64) as u64 }
}

fn bits32(op: IntOp, a: u32, b: u32) -> (r: Result<u32, Fault>)
    ensures
        r == machine::int32(op, a, b),
{
    let (x, y) = (a as i32, b as i32);
    assert((a as i32) as u32 == a) by (bit_vector);
    assert((b as i32) as u32 == b) by (bit_vector);
    assert(b as i32 == 0 <==> b == 0) by (bit_vector);
    Ok(
        match op {
            IntOp::Add => a.wrapping_add(b),
            IntOp::Sub => a.wrapping_sub(b),
            IntOp::Mul => a.wrapping_mul(b),
            IntOp::DivU => if b == 0 {
                return Err(Fault::DivisionByZero);
            } else {
                a / b
            },
            IntOp::RemU => if b == 0 {
                return Err(Fault::RemainderByZero);
            } else {
                a % b
            },
            IntOp::DivS => if b == 0 {
                return Err(Fault::DivisionByZero);
            } else {
                return div32(x, y);
            },
            IntOp::RemS => if b == 0 {
                return Err(Fault::RemainderByZero);
            } else {
                rem32(x, y)
            },
            IntOp::And => a & b,
            IntOp::Or => a | b,
            IntOp::Xor => a ^ b,
            IntOp::Shl => a.wrapping_shl(b),
            IntOp::ShrU => a.wrapping_shr(b),
            IntOp::ShrS => x.wrapping_shr(b) as u32,
            IntOp::Rotl => {
                let k: u32 = b % 32;
                if k == 0 { a } else { (a << k) | (a >> (32 - k)) }
            }
            IntOp::Rotr => {
                let k: u32 = b % 32;
                if k == 0 { a } else { (a >> k) | (a << (32 - k)) }
            }
            IntOp::Eqz => if a == 0 { 1 } else { 0 },
            IntOp::Eq => if a == b { 1 } else { 0 },
            IntOp::Ne => if a != b { 1 } else { 0 },
            IntOp::LtU => if a < b { 1 } else { 0 },
            IntOp::LtS => if x < y { 1 } else { 0 },
            IntOp::GtU => if a > b { 1 } else { 0 },
            IntOp::GtS => if x > y { 1 } else { 0 },
            IntOp::LeU => if a <= b { 1 } else { 0 },
            IntOp::LeS => if x <= y { 1 } else { 0 },
            IntOp::GeU => if a >= b { 1 } else { 0 },
            IntOp::GeS => if x >= y { 1 } else { 0 },
            IntOp::Clz => a.leading_zeros(),
            IntOp::Ctz => a.trailing_zeros(),
            IntOp::Popcnt => count_ones(a as u64),
        },
    )
}

fn bits64(op: IntOp, a: u64, b: u64) -> (r: Result<u64, Fault>)
    ensures
        r == machine::int64(op, a, b),
{
    let (x, y) = (a as i64, b as i64);
    assert((a as i64) as u64 == a) by (bit_vector);
    assert((b as i64) as u64 == b) by (bit_vector);
    Ok(
        match op {
            IntOp::Add => a.wrapping_add(b),
            IntOp::Sub => a.wrapping_sub(b),
            IntOp::Mul => a.wrapping_mul(b),
            IntOp::DivU => if b == 0 {
                return Err(Fault::DivisionByZero);
            } else {
                a / b
            },
            IntOp::RemU => if b == 0 {
                return Err(Fault::RemainderByZero);
            } else {
                a % b
            },
            IntOp::DivS => if b == 0 {
                return Err(Fault::DivisionByZero);
            } else {
                return div64(x, y);
            },
            IntOp::RemS => if b == 0 {
                return Err(Fault::RemainderByZero);
            } else {
                rem64(x, y)
            },
            IntOp::And => a & b,
            IntOp::Or => a | b,
            IntOp::Xor => a ^ b,
            IntOp::Shl => a.wrapping_shl(b as u32),
            IntOp::ShrU => a.wrapping_shr(b as u32),
            IntOp::ShrS => x.wrapping_shr(b as u32) as u64,
            IntOp::Rotl => {
                let k: u64 = b % 64;
                if k == 0 { a } else { (a << k) | (a >> (64 - k)) }
            }
            IntOp::Rotr => {
                let k: u64 = b % 64;
                if k == 0 { a } else { (a >> k) | (a << (64 - k)) }
            }
            IntOp::Eqz => if a == 0 { 1 } else { 0 },
            IntOp::Eq => if a == b { 1 } else { 0 },
            IntOp::Ne => if a != b { 1 } else { 0 },
            IntOp::LtU => if a < b { 1 } else { 0 },
            IntOp::LtS => if x < y { 1 } else { 0 },
            IntOp::GtU => if a > b { 1 } else { 0 },
            IntOp::GtS => if x > y { 1 } else { 0 },
            IntOp::LeU => if a <= b { 1 } else { 0 },
            IntOp::LeS => if x <= y { 1 } else { 0 },
            IntOp::GeU => if a >= b { 1 } else { 0 },
            IntOp::GeS => if x >= y { 1 } else { 0 },
            IntOp::Clz => a.leading_zeros() as u64,
            IntOp::Ctz => a.trailing_zeros() as u64,
            IntOp::Popcnt => count_ones(a) as u64,
        },
    )
}

fn int_value(op: IntOp, wide: bool, a: u64, b: u64) -> (r: Result<u64, Fault>)
    ensures
        r == machine::int_bits(op, wide, a, b),
{
    if wide {
        bits64(op, a, b)
    } else {
        match bits32(op, a as u32, b as u32) {
            Ok(c) => Ok(c as u64),
            Err(f) => Err(f),
        }
    }
}

fn convert(k: Conversion, a: Operand) -> (r: Operand)
    ensures
        r.val() == machine::converted(k, a.val()),
{
    match k {
        Conversion::I32WrapI64 => Operand::num(a.c as u32 as u64, a.s),
        Conversion::I64ExtendI32U => Operand::num(a.c as u32 as u64, a.s),
        Conversion::I64ExtendI32S => Operand::num((a.c as u32 as i32 as i64) as u64, a.s),
        Conversion::I32Extend8S => Operand::con((a.c as u8 as i8 as i32 as u32) as u64),
        Conversion::I32Extend16S => Operand::con((a.c as u16 as i16 as i32 as u32) as u64),
        Conversion::I64Extend8S => Operand::con((a.c as u8 as i8 as i64) as u64),
        Conversion::I64Extend16S => Operand::con((a.c as u16 as i16 as i64) as u64),
        Conversion::I64Extend32S => Operand::con((a.c as u32 as i32 as i64) as u64),
    }
}

fn exec_int(k: IntOp, wide: bool, vs: &mut Vec<Operand>) -> (r: Result<(), Fault>)
    ensures
        match machine::int_stack(k, wide, vals(old(vs)@)) {
            Ok(out) => r is Ok && vals(final(vs)@) == out,
            Err(f) => r == Err::<(), Fault>(f),
        },
{
    let unary = match k {
        IntOp::Eqz | IntOp::Clz | IntOp::Ctz | IntOp::Popcnt => true,
        _ => false,
    };
    let b = if unary {
        Operand::con(0)
    } else {
        match pop(vs) {
            Some(b) => b,
            None => return Err(Fault::Underflow),
        }
    };
    let a = match pop(vs) {
        Some(a) => a,
        None => return Err(Fault::Underflow),
    };
    match int_value(k, wide, a.c, b.c) {
        Ok(c) => {
            push(vs, tagged_result(k, wide, c, &a, &b));
            Ok(())
        }
        Err(f) => Err(f),
    }
}

/// Comparisons, arithmetic, conversions. Returns false if the op isn't handled.
/// Symbolic tags flow through unsigned arithmetic and comparisons; signed
/// operations and bit-counting drop them (result is concrete).
pub fn exec_numeric(op: &Op, vs: &mut Vec<Operand>) -> (r: Result<bool, Fault>)
    ensures
        match machine::numeric(*op, vals(old(vs)@)) {
            Some(Ok(out)) => r == Ok::<bool, Fault>(true) && vals(final(vs)@) == out,
            Some(Err(f)) => r == Err::<bool, Fault>(f),
            None => r == Ok::<bool, Fault>(false) && vals(final(vs)@) == vals(old(vs)@),
        },
{
    match op {
        Op::I32(k) => match exec_int(*k, false, vs) {
            Ok(()) => Ok(true),
            Err(f) => Err(f),
        },
        Op::I64(k) => match exec_int(*k, true, vs) {
            Ok(()) => Ok(true),
            Err(f) => Err(f),
        },
        Op::Convert(k) => match pop(vs) {
            Some(a) => {
                push(vs, convert(*k, a));
                Ok(true)
            }
            None => Err(Fault::Underflow),
        },
        _ => Ok(false),
    }
}

/// The result of a selection between `a` and `b` by `c`. Captures branchless
/// conditionals: a u128 saturating-sub selects on its *borrow*, which the word
/// arithmetic yields as a 0/1 number, not a bool; missing that would drop the
/// saturation guard entirely.
pub fn select(c: Operand, a: Operand, b: Operand) -> (r: Operand)
    ensures
        r.val() == machine::selected(c.val(), a.val(), b.val()),
{
    let taken = c.holds();
    if let Some(cond) = c.condition() {
        if a.is_symbolic() || b.is_symbolic() {
            let s = SymNum::If(cond, a.as_sym(), b.as_sym()).rc();
            return Operand::num(if taken { a.c } else { b.c }, Some(s));
        }
    }
    if taken { a } else { b }
}

} // verus!
