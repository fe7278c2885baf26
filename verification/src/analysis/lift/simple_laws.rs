//! What simplifying an expression achieves. That it keeps the value is stated elsewhere.
use vstd::prelude::*;
use crate::analysis::lift::sym;
use crate::bytes;
use crate::plan::eval;
use crate::plan::term;
use crate::plan::term::NumOp;
use crate::plan::{BytesTerm, NumTerm};

verus! {

/// An operation on two constants is the constant that it gives, except a division by zero
/// and a shift by 128 places or more.
pub proof fn lemma_constants_fold(op: NumOp, x: u128, y: u128)
    requires
        op is Div || op is Mod ==> y != 0,
        op is Shl || op is Shr ==> y < 128,
    ensures
        sym::simple_num(term::op_term(op, NumTerm::Const(x), NumTerm::Const(y))) == NumTerm::Const(eval::num_op(op, x, y)),
{
    reveal_with_fuel(sym::simple_num, 2);
    lemma_zero_bits(x, y);
}

proof fn lemma_zero_bits(x: u128, y: u128)
    by (bit_vector)
    ensures
        0u128 | y == y,
        x | 0u128 == x,
        0u128 & y == 0,
        x & 0u128 == 0,
        x >> 0u128 == x,
        x << 0u128 == x,
        y < 128 ==> 0u128 >> y == 0,
        y < 128 ==> 0u128 << y == 0,
{
}

/// What adds nothing goes: zero in a sum, behind a difference, a shift or a disjunction,
/// and one in a product. A product with zero, a conjunction with zero and a shift of zero
/// are zero.
pub proof fn lemma_neutral(e: NumTerm)
    requires
        !(sym::simple_num(e) is Const),
    ensures
        sym::simple_num(term::op_term(NumOp::Add, e, NumTerm::Const(0))) == sym::simple_num(e),
        sym::simple_num(term::op_term(NumOp::Add, NumTerm::Const(0), e)) == sym::simple_num(e),
        sym::simple_num(term::op_term(NumOp::Sub, e, NumTerm::Const(0))) == sym::simple_num(e),
        sym::simple_num(term::op_term(NumOp::Mul, e, NumTerm::Const(1))) == sym::simple_num(e),
        sym::simple_num(term::op_term(NumOp::Mul, NumTerm::Const(1), e)) == sym::simple_num(e),
        sym::simple_num(term::op_term(NumOp::Mul, e, NumTerm::Const(0))) == NumTerm::Const(0),
        sym::simple_num(term::op_term(NumOp::Mul, NumTerm::Const(0), e)) == NumTerm::Const(0),
        sym::simple_num(term::op_term(NumOp::Shl, e, NumTerm::Const(0))) == sym::simple_num(e),
        sym::simple_num(term::op_term(NumOp::Shr, e, NumTerm::Const(0))) == sym::simple_num(e),
        sym::simple_num(term::op_term(NumOp::Shl, NumTerm::Const(0), e)) == NumTerm::Const(0),
        sym::simple_num(term::op_term(NumOp::Shr, NumTerm::Const(0), e)) == NumTerm::Const(0),
        sym::simple_num(term::op_term(NumOp::Or, e, NumTerm::Const(0))) == sym::simple_num(e),
        sym::simple_num(term::op_term(NumOp::Or, NumTerm::Const(0), e)) == sym::simple_num(e),
        sym::simple_num(term::op_term(NumOp::And, e, NumTerm::Const(0))) == NumTerm::Const(0),
        sym::simple_num(term::op_term(NumOp::And, NumTerm::Const(0), e)) == NumTerm::Const(0),
{
    reveal_with_fuel(sym::simple_num, 2);
}

/// A constant number written in bytes is those bytes, constants next to each other are
/// one, what is empty goes, and a concatenation of one part is that part.
pub proof fn lemma_bytes_fold(n: u128, width: u8, a: Seq<u8>, b: Seq<u8>, e: BytesTerm)
    ensures
        width <= 16 ==> sym::simple_bytes(BytesTerm::Le { of: Box::new(NumTerm::Const(n)), width }) == BytesTerm::Const(
            bytes::le_bytes(n as int, width as nat),
        ),
        a.len() > 0 && b.len() > 0 ==> sym::simple_bytes(BytesTerm::Concat(seq![BytesTerm::Const(a), BytesTerm::Const(b)])) == BytesTerm::Const(
            a + b,
        ),
        a.len() > 0 ==> sym::simple_bytes(BytesTerm::Concat(seq![BytesTerm::Const(a), BytesTerm::Const(seq![])])) == BytesTerm::Const(a),
        !(sym::simple_bytes(e) is Const) && !(sym::simple_bytes(e) is Concat) ==> sym::simple_bytes(BytesTerm::Concat(seq![e]))
            == sym::simple_bytes(e),
        sym::simple_bytes(BytesTerm::Storage(Box::new(e))) == BytesTerm::Storage(Box::new(sym::simple_bytes(e))),
{
    reveal_with_fuel(sym::simple_num, 2);
    reveal_with_fuel(sym::simple_bytes, 3);
    reveal_with_fuel(sym::simple_parts, 4);
    let (x, y) = (BytesTerm::Const(a), BytesTerm::Const(b));
    let none = BytesTerm::Const(Seq::<u8>::empty());
    assert(seq![x, y].drop_last() =~= seq![x]);
    assert(seq![x].drop_last() =~= Seq::<BytesTerm>::empty());
    assert(seq![x, none].drop_last() =~= seq![x]);
    assert(seq![e].drop_last() =~= Seq::<BytesTerm>::empty());
    assert(sym::simple_bytes(x) == x && sym::simple_bytes(y) == y && sym::simple_bytes(none) == none);
    assert(sym::simple_parts(Seq::<BytesTerm>::empty()) =~= Seq::<BytesTerm>::empty());
    if a.len() > 0 {
        assert(sym::simple_parts(seq![x]) =~= seq![x]);
        assert(seq![x].drop_last().push(BytesTerm::Const(a + b)) =~= seq![BytesTerm::Const(a + b)]);
        if b.len() > 0 {
            assert(sym::simple_parts(seq![x, y]) =~= seq![BytesTerm::Const(a + b)]);
        }
        assert(sym::simple_parts(seq![x, none]) =~= seq![x]);
    }
    if !(sym::simple_bytes(e) is Const) && !(sym::simple_bytes(e) is Concat) {
        assert(sym::simple_parts(seq![e]) =~= seq![sym::simple_bytes(e)]);
    }
}

} // verus!
