//! What simplification and normalization keep.
use vstd::prelude::*;
use crate::analysis::lift::sym;
use crate::plan::eval;
use crate::plan::{BytesTerm, NumTerm, PlanError, World};

verus! {

proof fn lemma_concat_append(a: Seq<BytesTerm>, b: Seq<BytesTerm>, w: World, var: Option<u128>)
    ensures
        eval::concat_value(a + b, w, var) == (match eval::concat_value(a, w, var) {
            Err(x) => Err(x),
            Ok(x) => match eval::concat_value(b, w, var) {
                Err(y) => Err(y),
                Ok(y) => Ok(x + y),
            },
        }),
    decreases b.len(),
{
    if b.len() == 0 {
        assert(a + b =~= a);
        if let Ok(x) = eval::concat_value(a, w, var) {
            assert(x + Seq::<u8>::empty() =~= x);
        }
    } else {
        lemma_concat_append(a, b.drop_last(), w, var);
        assert((a + b).drop_last() =~= a + b.drop_last());
        assert((a + b).last() == b.last());
        if let Ok(x) = eval::concat_value(a, w, var) {
            if let Ok(y) = eval::concat_value(b.drop_last(), w, var) {
                if let Ok(z) = eval::bytes_value(b.last(), w, var) {
                    assert((x + y) + z =~= x + (y + z));
                }
            }
        }
    }
}

proof fn lemma_concat_snoc(a: Seq<BytesTerm>, p: BytesTerm, w: World, var: Option<u128>)
    ensures
        eval::concat_value(a.push(p), w, var) == (match eval::concat_value(a, w, var) {
            Err(x) => Err(x),
            Ok(x) => match eval::bytes_value(p, w, var) {
                Err(y) => Err(y),
                Ok(y) => Ok(x + y),
            },
        }),
{
    assert(a.push(p).drop_last() =~= a);
    assert(a.push(p).last() == p);
}

/// A constant joined to a constant before it.
proof fn lemma_concat_joined(a: Seq<BytesTerm>, b: Seq<u8>, w: World, var: Option<u128>, x: Seq<u8>)
    requires
        a.len() > 0,
        a.last() is Const,
        eval::concat_value(a, w, var) == Ok::<Seq<u8>, PlanError>(x),
    ensures
        eval::concat_value(a.drop_last().push(BytesTerm::Const(a.last()->Const_0 + b)), w, var)
            == Ok::<Seq<u8>, PlanError>(x + b),
{
    let c = a.last()->Const_0;
    assert(a =~= a.drop_last().push(a.last()));
    lemma_concat_snoc(a.drop_last(), a.last(), w, var);
    lemma_concat_snoc(a.drop_last(), BytesTerm::Const(c + b), w, var);
    let y = eval::concat_value(a.drop_last(), w, var)->Ok_0;
    assert((y + c) + b =~= y + (c + b));
}

proof fn lemma_concat_push(out: Seq<BytesTerm>, p: BytesTerm, w: World, var: Option<u128>, x: Seq<u8>, y: Seq<u8>)
    requires
        eval::concat_value(out, w, var) == Ok::<Seq<u8>, PlanError>(x),
        eval::bytes_value(p, w, var) == Ok::<Seq<u8>, PlanError>(y),
    ensures
        eval::concat_value(sym::concat_push(out, p), w, var) == Ok::<Seq<u8>, PlanError>(x + y),
{
    lemma_concat_snoc(out, p, w, var);
    match p {
        BytesTerm::Const(b) => {
            if b.len() == 0 {
                assert(x + y =~= x);
            } else if out.len() > 0 && out.last() is Const {
                lemma_concat_joined(out, b, w, var, x);
            }
        }
        BytesTerm::Concat(inner) => {
            lemma_concat_append(out, inner, w, var);
        }
        _ => {}
    }
}

proof fn lemma_concat_of(parts: Seq<BytesTerm>, w: World, var: Option<u128>)
    ensures
        eval::bytes_value(sym::concat_of(parts), w, var) == eval::concat_value(parts, w, var),
{
    if parts.len() == 1 {
        assert(parts =~= Seq::<BytesTerm>::empty().push(parts[0]));
        lemma_concat_snoc(Seq::empty(), parts[0], w, var);
        if let Ok(y) = eval::bytes_value(parts[0], w, var) {
            assert(Seq::<u8>::empty() + y =~= y);
        }
    }
}

proof fn lemma_simple_parts(parts: Seq<BytesTerm>, w: World, var: Option<u128>)
    requires
        eval::concat_value(parts, w, var) is Ok,
    ensures
        eval::concat_value(sym::simple_parts(parts), w, var) == eval::concat_value(parts, w, var),
    decreases parts,
{
    if parts.len() > 0 {
        lemma_simple_parts(parts.drop_last(), w, var);
        lemma_simplify_bytes(parts.last(), w, var);
        lemma_concat_push(
            sym::simple_parts(parts.drop_last()),
            sym::simple_bytes(parts.last()),
            w,
            var,
            eval::concat_value(parts.drop_last(), w, var)->Ok_0,
            eval::bytes_value(parts.last(), w, var)->Ok_0,
        );
    }
}

/// Simplification keeps the value of every byte-string expression that has one:
/// whatever the world, the simplified expression evaluates to the same bytes.
pub proof fn lemma_simplify_bytes(e: BytesTerm, w: World, var: Option<u128>)
    requires
        eval::bytes_value(e, w, var) is Ok,
    ensures
        eval::bytes_value(sym::simple_bytes(e), w, var) == eval::bytes_value(e, w, var),
    decreases e,
{
    match e {
        BytesTerm::Concat(parts) => {
            lemma_simple_parts(parts, w, var);
            lemma_concat_of(sym::simple_parts(parts), w, var);
        }
        BytesTerm::Storage(k) => {
            lemma_simplify_bytes(*k, w, var);
        }
        BytesTerm::Le { of, width } => {
            lemma_simplify_num(*of, w, var);
        }
        BytesTerm::Slice { of, start, len } => {
            lemma_simplify_bytes(*of, w, var);
            lemma_simplify_num(*start, w, var);
            lemma_simplify_num(*len, w, var);
        }
        _ => {}
    }
}

proof fn lemma_neutral(x: u128)
    ensures
        x >> 0u128 == x,
        x << 0u128 == x,
        x | 0 == x,
        0 | x == x,
        x & 0 == 0,
        0 & x == 0,
        forall|s: u128| s < 128 ==> #[trigger] (0u128 >> s) == 0,
        forall|s: u128| s < 128 ==> #[trigger] (0u128 << s) == 0,
        x.wrapping_mul(1) == x,
        1u128.wrapping_mul(x) == x,
        x.wrapping_mul(0) == 0,
        0u128.wrapping_mul(x) == 0,
{
    assert(x >> 0u128 == x) by (bit_vector);
    assert(x << 0u128 == x) by (bit_vector);
    assert(x | 0 == x) by (bit_vector);
    assert(0 | x == x) by (bit_vector);
    assert(x & 0 == 0) by (bit_vector);
    assert(0 & x == 0) by (bit_vector);
    assert(forall|s: u128| s < 128 ==> #[trigger] (0u128 >> s) == 0) by (bit_vector);
    assert(forall|s: u128| s < 128 ==> #[trigger] (0u128 << s) == 0) by (bit_vector);
    assert(x as nat * 1 == x) by (nonlinear_arith);
    assert(1 * x as nat == x) by (nonlinear_arith);
    assert(x as nat * 0 == 0) by (nonlinear_arith);
    assert(0 * x as nat == 0) by (nonlinear_arith);
}

/// Simplification keeps the value of every number expression that has one.
pub proof fn lemma_simplify_num(e: NumTerm, w: World, var: Option<u128>)
    requires
        eval::num_value(e, w, var) is Ok,
    ensures
        eval::num_value(sym::simple_num(e), w, var) == eval::num_value(e, w, var),
    decreases e,
{
    match e {
        NumTerm::Op(op, a, b) => {
            lemma_simplify_num(*a, w, var);
            lemma_simplify_num(*b, w, var);
            let x = eval::num_value(*a, w, var)->Ok_0;
            let y = eval::num_value(*b, w, var)->Ok_0;
            lemma_neutral(x);
            lemma_neutral(y);
            let p = sym::simple_num(*a);
            let q = sym::simple_num(*b);
            assert(eval::num_value(p, w, var) == Ok::<u128, PlanError>(x));
            assert(eval::num_value(q, w, var) == Ok::<u128, PlanError>(y));
            assert(p is Const ==> p->Const_0 == x);
            assert(q is Const ==> q->Const_0 == y);
            assert(eval::num_value(sym::fold_op(op, p, q), w, var) == Ok::<u128, PlanError>(eval::num_op(op, x, y)));
        }
        NumTerm::ULe(b) => {
            lemma_simplify_bytes(*b, w, var);
        }
        NumTerm::Len(b) => {
            lemma_simplify_bytes(*b, w, var);
        }
        _ => {}
    }
}

proof fn lemma_flat(parts: Seq<BytesTerm>, w: World, var: Option<u128>)
    ensures
        eval::concat_value(sym::flat(parts), w, var) == eval::concat_value(parts, w, var),
    decreases parts.len(),
{
    if parts.len() > 0 {
        lemma_flat(parts.drop_last(), w, var);
        match parts.last() {
            BytesTerm::Concat(inner) => {
                assert(eval::bytes_value(parts.last(), w, var) == eval::concat_value(inner, w, var));
                lemma_concat_append(sym::flat(parts.drop_last()), inner, w, var);
            }
            p => {
                lemma_concat_snoc(sym::flat(parts.drop_last()), p, w, var);
            }
        }
    }
}

proof fn lemma_merged(parts: Seq<BytesTerm>, w: World, var: Option<u128>)
    ensures
        eval::concat_value(sym::merged(parts), w, var) == eval::concat_value(parts, w, var),
    decreases parts.len(),
{
    if parts.len() > 0 {
        let before = sym::merged(parts.drop_last());
        let p = parts.last();
        lemma_merged(parts.drop_last(), w, var);
        assert(p is Const ==> eval::bytes_value(p, w, var) == Ok::<Seq<u8>, PlanError>(p->Const_0));
        if before.len() > 0 && before.last() is Const && p is Const {
            match eval::concat_value(before, w, var) {
                Ok(x) => {
                    lemma_concat_joined(before, p->Const_0, w, var, x);
                }
                Err(_) => {
                    assert(before =~= before.drop_last().push(before.last()));
                    lemma_concat_snoc(before.drop_last(), before.last(), w, var);
                    assert(eval::bytes_value(before.last(), w, var) is Ok);
                    lemma_concat_snoc(
                        before.drop_last(),
                        BytesTerm::Const(before.last()->Const_0 + p->Const_0),
                        w,
                        var,
                    );
                }
            }
        } else {
            lemma_concat_snoc(before, p, w, var);
        }
    }
}

/// Normalization keeps the value, and the error, of a concatenation: the
/// normalized bytes evaluate as the parts do one after the other.
pub proof fn lemma_normalize(parts: Seq<BytesTerm>, w: World, var: Option<u128>)
    ensures
        eval::bytes_value(sym::concat_of(sym::merged(sym::flat(parts))), w, var)
            == eval::bytes_value(BytesTerm::Concat(parts), w, var),
{
    lemma_flat(parts, w, var);
    lemma_merged(sym::flat(parts), w, var);
    lemma_concat_of(sym::merged(sym::flat(parts)), w, var);
}

} // verus!
