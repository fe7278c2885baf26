//! Symbolic values for the concolic lifter.
//!
//! A runtime value carries a concrete u64 plus an optional symbolic tag
//! (`SymNum`). Memory carries, per byte, an optional provenance (`ByteProv`)
//! saying which symbolic byte-string that byte came from. Contiguous
//! same-source provenance runs are recovered into `SymBytes`, and both lower to
//! the plan language (`NumExpr` / `BytesExpr`). Anything the lifter can't
//! represent stays untagged (concrete), and only the parts that flow into
//! `response.data` matter, so untracked scratch computation is harmless.
use vstd::prelude::*;
use std::rc::Rc;
use crate::bytes;
use crate::bytes::{copy_bytes, encode_le};
use crate::plan::{eval, term};
use crate::plan::{BoolExpr, BoolTerm, BytesExpr, BytesTerm, Comparison, NumExpr, NumOp, NumTerm};

verus! {

broadcast use term::group_list_terms;

/*──────────────────────── simplification ────────────────────────*/

/// Appends a simplified part to a simplified concatenation: empty constants
/// vanish, adjacent constants join, nested concatenations open up.
pub open spec fn concat_push(out: Seq<BytesTerm>, p: BytesTerm) -> Seq<BytesTerm> {
    match p {
        BytesTerm::Const(b) => if b.len() == 0 {
            out
        } else if out.len() > 0 && out.last() is Const {
            out.drop_last().push(BytesTerm::Const(out.last()->Const_0 + b))
        } else {
            out.push(p)
        },
        BytesTerm::Concat(inner) => out + inner,
        _ => out.push(p),
    }
}

/// A concatenation, or its only part.
pub open spec fn concat_of(parts: Seq<BytesTerm>) -> BytesTerm {
    if parts.len() == 1 {
        parts[0]
    } else {
        BytesTerm::Concat(parts)
    }
}

/// The parts of a concatenation, each simplified, put together.
pub open spec fn simple_parts(parts: Seq<BytesTerm>) -> Seq<BytesTerm>
    decreases parts,
{
    if parts.len() == 0 {
        Seq::empty()
    } else {
        concat_push(simple_parts(parts.drop_last()), simple_bytes(parts.last()))
    }
}

/// What a byte-string term simplifies to.
pub open spec fn simple_bytes(e: BytesTerm) -> BytesTerm
    decreases e,
{
    match e {
        BytesTerm::Concat(parts) => concat_of(simple_parts(parts)),
        BytesTerm::Storage(k) => BytesTerm::Storage(Box::new(simple_bytes(*k))),
        BytesTerm::Le { of, width } => {
            let of = simple_num(*of);
            if of is Const && width <= 16 {
                BytesTerm::Const(bytes::le_bytes(of->Const_0 as int, width as nat))
            } else {
                BytesTerm::Le { of: Box::new(of), width }
            }
        }
        BytesTerm::Slice { of, start, len } => BytesTerm::Slice {
            of: Box::new(simple_bytes(*of)),
            start: Box::new(simple_num(*start)),
            len: Box::new(simple_num(*len)),
        },
        _ => e,
    }
}

/// Whether a term is the constant `n`.
pub open spec fn is_num(e: NumTerm, n: u128) -> bool {
    e == NumTerm::Const(n)
}

/// A binary operation on simplified operands: constants fold, and a neutral or
/// absorbing operand decides.
pub open spec fn fold_op(op: NumOp, a: NumTerm, b: NumTerm) -> NumTerm {
    let both = a is Const && b is Const;
    let (x, y) = (a->Const_0, b->Const_0);
    let folded = NumTerm::Const(eval::num_op(op, x, y));
    let kept = term::op_term(op, a, b);
    match op {
        NumOp::Add => if both { folded } else if is_num(a, 0) { b } else if is_num(b, 0) { a } else { kept },
        NumOp::Sub => if both { folded } else if is_num(b, 0) { a } else { kept },
        NumOp::Mul => if both {
            folded
        } else if is_num(a, 0) || is_num(b, 0) {
            NumTerm::Const(0)
        } else if is_num(a, 1) {
            b
        } else if is_num(b, 1) {
            a
        } else {
            kept
        },
        NumOp::Div | NumOp::Mod => if both && y != 0 { folded } else { kept },
        NumOp::Shr | NumOp::Shl => if is_num(a, 0) {
            NumTerm::Const(0)
        } else if is_num(b, 0) {
            a
        } else if both && y < 128 {
            folded
        } else {
            kept
        },
        NumOp::Or => if is_num(a, 0) { b } else if is_num(b, 0) { a } else if both { folded } else { kept },
        NumOp::And => if is_num(a, 0) || is_num(b, 0) { NumTerm::Const(0) } else if both { folded } else { kept },
        NumOp::Xor => if both { folded } else { kept },
    }
}

/// What a number term simplifies to.
pub open spec fn simple_num(e: NumTerm) -> NumTerm
    decreases e,
{
    match e {
        NumTerm::Op(op, a, b) => fold_op(op, simple_num(*a), simple_num(*b)),
        NumTerm::ULe(b) => NumTerm::ULe(Box::new(simple_bytes(*b))),
        NumTerm::Len(b) => NumTerm::Len(Box::new(simple_bytes(*b))),
        _ => e,
    }
}

fn fold_parts(out: &mut Vec<BytesExpr>, p: BytesExpr)
    ensures
        term::bytes_terms(final(out)@) == concat_push(term::bytes_terms(old(out)@), p.term()),
{
    let ghost before = term::bytes_terms(out@);
    match p {
        BytesExpr::Const(mut b) => {
            if b.len() == 0 {
                return;
            }
            let ghost tail = b@;
            match out.pop() {
                None => {
                    out.push(BytesExpr::Const(b));
                    assert(term::bytes_terms(out@) =~= before.push(BytesTerm::Const(tail)));
                }
                Some(BytesExpr::Const(mut joined)) => {
                    let ghost prev = joined@;
                    joined.append(&mut b);
                    out.push(BytesExpr::Const(joined));
                    assert(term::bytes_terms(out@) =~= before.drop_last().push(BytesTerm::Const(prev + tail)));
                }
                Some(last) => {
                    out.push(last);
                    out.push(BytesExpr::Const(b));
                    assert(term::bytes_terms(out@) =~= before.push(BytesTerm::Const(tail)));
                }
            }
        }
        BytesExpr::Concat(mut inner) => {
            let ghost added = term::bytes_terms(inner@);
            out.append(&mut inner);
            assert(term::bytes_terms(out@) =~= before + added);
        }
        p => {
            out.push(p);
            assert(term::bytes_terms(out@) =~= before.push(p.term()));
        }
    }
}

fn simplify_parts(parts: &Vec<BytesExpr>) -> (r: Vec<BytesExpr>)
    ensures
        term::bytes_terms(r@) == simple_parts(term::bytes_terms(parts@)),
    decreases parts,
{
    let ghost ts = term::bytes_terms(parts@);
    let mut out: Vec<BytesExpr> = Vec::new();
    let n = parts.len();
    assert(term::bytes_terms(out@) =~= simple_parts(ts.take(0)));
    for i in 0..n
        invariant
            n == parts@.len(),
            ts == term::bytes_terms(parts@),
            term::bytes_terms(out@) == simple_parts(ts.take(i as int)),
    {
        let p = simplify_bytes_ref(&parts[i]);
        assert(ts.take(i + 1).drop_last() =~= ts.take(i as int));
        assert(ts.take(i + 1).last() == parts@[i as int].term());
        fold_parts(&mut out, p);
    }
    assert(ts.take(n as int) =~= ts);
    out
}

fn simplify_bytes_ref(e: &BytesExpr) -> (r: BytesExpr)
    ensures
        r.term() == simple_bytes(e.term()),
    decreases e,
{
    match e {
        BytesExpr::Concat(parts) => {
            let mut out = simplify_parts(parts);
            if out.len() == 1 {
                let ghost ts = term::bytes_terms(out@);
                match out.pop() {
                    Some(only) => {
                        assert(only.term() == ts[0]);
                        only
                    }
                    None => BytesExpr::Concat(out),
                }
            } else {
                BytesExpr::Concat(out)
            }
        }
        BytesExpr::Storage(k) => BytesExpr::Storage(Box::new(simplify_bytes_ref(k))),
        BytesExpr::Le { of, width } => {
            let of = simplify_num_ref(of);
            if let NumExpr::Const(n) = of {
                if *width <= 16 {
                    return BytesExpr::Const(encode_le(n, *width as usize));
                }
            }
            BytesExpr::Le { of: Box::new(of), width: *width }
        }
        BytesExpr::Slice { of, start, len } => BytesExpr::Slice {
            of: Box::new(simplify_bytes_ref(of)),
            start: Box::new(simplify_num_ref(start)),
            len: Box::new(simplify_num_ref(len)),
        },
        other => other.copy(),
    }
}

fn as_const(e: &NumExpr) -> (r: Option<u128>)
    ensures
        match r {
            Some(n) => e.term() == NumTerm::Const(n),
            None => !(e.term() is Const),
        },
{
    match e {
        NumExpr::Const(n) => Some(*n),
        _ => None,
    }
}

fn simplify_num_ref(e: &NumExpr) -> (r: NumExpr)
    ensures
        r.term() == simple_num(e.term()),
    decreases e,
{
    match e {
        NumExpr::Add(a, b) => {
            let (x, y) = (simplify_num_ref(a), simplify_num_ref(b));
            match (as_const(&x), as_const(&y)) {
                (Some(n), Some(m)) => NumExpr::Const(n.wrapping_add(m)),
                (Some(0), _) => y,
                (_, Some(0)) => x,
                _ => NumExpr::Add(Box::new(x), Box::new(y)),
            }
        }
        NumExpr::Sub(a, b) => {
            let (x, y) = (simplify_num_ref(a), simplify_num_ref(b));
            match (as_const(&x), as_const(&y)) {
                (Some(n), Some(m)) => NumExpr::Const(n.wrapping_sub(m)),
                (_, Some(0)) => x,
                _ => NumExpr::Sub(Box::new(x), Box::new(y)),
            }
        }
        NumExpr::Mul(a, b) => {
            let (x, y) = (simplify_num_ref(a), simplify_num_ref(b));
            match (as_const(&x), as_const(&y)) {
                (Some(n), Some(m)) => NumExpr::Const(n.wrapping_mul(m)),
                (Some(0), _) => NumExpr::Const(0),
                (_, Some(0)) => NumExpr::Const(0),
                (Some(1), _) => y,
                (_, Some(1)) => x,
                _ => NumExpr::Mul(Box::new(x), Box::new(y)),
            }
        }
        NumExpr::Div(a, b) => {
            let (x, y) = (simplify_num_ref(a), simplify_num_ref(b));
            match (as_const(&x), as_const(&y)) {
                (Some(n), Some(m)) if m != 0 => NumExpr::Const(n / m),
                _ => NumExpr::Div(Box::new(x), Box::new(y)),
            }
        }
        NumExpr::Mod(a, b) => {
            let (x, y) = (simplify_num_ref(a), simplify_num_ref(b));
            match (as_const(&x), as_const(&y)) {
                (Some(n), Some(m)) if m != 0 => NumExpr::Const(n % m),
                _ => NumExpr::Mod(Box::new(x), Box::new(y)),
            }
        }
        NumExpr::Shr(a, b) => {
            let (x, y) = (simplify_num_ref(a), simplify_num_ref(b));
            match (as_const(&x), as_const(&y)) {
                (Some(0), _) => NumExpr::Const(0),
                (_, Some(0)) => x,
                (Some(n), Some(s)) if s < 128 => NumExpr::Const(n >> s),
                _ => NumExpr::Shr(Box::new(x), Box::new(y)),
            }
        }
        NumExpr::Shl(a, b) => {
            let (x, y) = (simplify_num_ref(a), simplify_num_ref(b));
            match (as_const(&x), as_const(&y)) {
                (Some(0), _) => NumExpr::Const(0),
                (_, Some(0)) => x,
                (Some(n), Some(s)) if s < 128 => NumExpr::Const(n << s),
                _ => NumExpr::Shl(Box::new(x), Box::new(y)),
            }
        }
        NumExpr::Or(a, b) => {
            let (x, y) = (simplify_num_ref(a), simplify_num_ref(b));
            match (as_const(&x), as_const(&y)) {
                (Some(0), _) => y,
                (_, Some(0)) => x,
                (Some(n), Some(m)) => NumExpr::Const(n | m),
                _ => NumExpr::Or(Box::new(x), Box::new(y)),
            }
        }
        NumExpr::And(a, b) => {
            let (x, y) = (simplify_num_ref(a), simplify_num_ref(b));
            match (as_const(&x), as_const(&y)) {
                (Some(0), _) => NumExpr::Const(0),
                (_, Some(0)) => NumExpr::Const(0),
                (Some(n), Some(m)) => NumExpr::Const(n & m),
                _ => NumExpr::And(Box::new(x), Box::new(y)),
            }
        }
        NumExpr::Xor(a, b) => {
            let (x, y) = (simplify_num_ref(a), simplify_num_ref(b));
            match (as_const(&x), as_const(&y)) {
                (Some(n), Some(m)) => NumExpr::Const(n ^ m),
                _ => NumExpr::Xor(Box::new(x), Box::new(y)),
            }
        }
        NumExpr::ULe(b) => NumExpr::ULe(Box::new(simplify_bytes_ref(b))),
        NumExpr::Len(b) => NumExpr::Len(Box::new(simplify_bytes_ref(b))),
        leaf => leaf.copy(),
    }
}

/// Constant-fold and simplify a lifted expression: kills the `0 << x`, `0 | y`,
/// `x + 0`, `le(const)` noise that compilation leaves behind, so a lifted plan
/// reads as cleanly as a template one.
pub fn simplify_bytes(e: BytesExpr) -> (r: BytesExpr)
    ensures
        r.term() == simple_bytes(e.term()),
{
    simplify_bytes_ref(&e)
}

/// The numeric side of [`simplify_bytes`].
pub fn simplify_num(e: NumExpr) -> (r: NumExpr)
    ensures
        r.term() == simple_num(e.term()),
{
    simplify_num_ref(&e)
}

/*──────────────────────── symbolic values ────────────────────────*/

/// A second handle on the same value, by `Rc::clone`, which is documented to
/// point to the same allocation: both handles show the same value.
#[verifier::external_body]
pub(crate) fn share<T>(x: &Rc<T>) -> (r: Rc<T>)
    ensures
        *r == **x,
{
    Rc::clone(x)
}

/// A symbolic byte-string.
#[derive(Debug, PartialEq, Eq)]
pub enum SymBytes {
    Const(Vec<u8>),
    Storage(Rc<SymBytes>),
    Calldata { start: u32, len: Option<u32> },
    Concat(Vec<Rc<SymBytes>>),
    Le { of: Rc<SymNum>, width: u8 },
}

/// A symbolic number.
#[derive(Debug, PartialEq, Eq)]
pub enum SymNum {
    Const(u128),
    ULe(Rc<SymBytes>),
    Len(Rc<SymBytes>),
    Height,
    Word(u32),
    Add(Rc<SymNum>, Rc<SymNum>),
    Sub(Rc<SymNum>, Rc<SymNum>),
    Mul(Rc<SymNum>, Rc<SymNum>),
    Div(Rc<SymNum>, Rc<SymNum>),
    Mod(Rc<SymNum>, Rc<SymNum>),
    Shr(Rc<SymNum>, Rc<SymNum>),
    Shl(Rc<SymNum>, Rc<SymNum>),
    And(Rc<SymNum>, Rc<SymNum>),
    Or(Rc<SymNum>, Rc<SymNum>),
    Xor(Rc<SymNum>, Rc<SymNum>),
    /// One number or the other, as a condition says.
    If(Rc<SymBool>, Rc<SymNum>, Rc<SymNum>),
}

/// A symbolic truth value: a comparison of symbolic numbers.
#[derive(Debug, PartialEq, Eq)]
pub enum SymBool {
    Eq(Rc<SymNum>, Rc<SymNum>),
    Ne(Rc<SymNum>, Rc<SymNum>),
    Lt(Rc<SymNum>, Rc<SymNum>),
    Gt(Rc<SymNum>, Rc<SymNum>),
    Lte(Rc<SymNum>, Rc<SymNum>),
    Gte(Rc<SymNum>, Rc<SymNum>),
}

impl SymBytes {
    /// The plan term that the symbolic bytes stand for.
    pub open spec fn term(self) -> BytesTerm
        decreases self,
    {
        match self {
            SymBytes::Const(b) => BytesTerm::Const(b@),
            SymBytes::Storage(k) => BytesTerm::Storage(Box::new(k.term())),
            SymBytes::Calldata { start, len } => BytesTerm::Calldata { start, len },
            SymBytes::Concat(parts) => BytesTerm::Concat(
                Seq::new(
                    parts@.len(),
                    |i: int| if 0 <= i < parts@.len() { parts@[i].term() } else { arbitrary() },
                ),
            ),
            SymBytes::Le { of, width } => BytesTerm::Le { of: Box::new(of.term()), width },
        }
    }
}

impl SymNum {
    /// The plan term that the symbolic number stands for.
    pub open spec fn term(self) -> NumTerm
        decreases self,
    {
        match self {
            SymNum::Const(n) => NumTerm::Const(n),
            SymNum::ULe(b) => NumTerm::ULe(Box::new(b.term())),
            SymNum::Len(b) => NumTerm::Len(Box::new(b.term())),
            SymNum::Height => NumTerm::Height,
            SymNum::Word(i) => NumTerm::Word(i),
            SymNum::Add(a, b) => term::op_term(NumOp::Add, a.term(), b.term()),
            SymNum::Sub(a, b) => term::op_term(NumOp::Sub, a.term(), b.term()),
            SymNum::Mul(a, b) => term::op_term(NumOp::Mul, a.term(), b.term()),
            SymNum::Div(a, b) => term::op_term(NumOp::Div, a.term(), b.term()),
            SymNum::Mod(a, b) => term::op_term(NumOp::Mod, a.term(), b.term()),
            SymNum::Shr(a, b) => term::op_term(NumOp::Shr, a.term(), b.term()),
            SymNum::Shl(a, b) => term::op_term(NumOp::Shl, a.term(), b.term()),
            SymNum::And(a, b) => term::op_term(NumOp::And, a.term(), b.term()),
            SymNum::Or(a, b) => term::op_term(NumOp::Or, a.term(), b.term()),
            SymNum::Xor(a, b) => term::op_term(NumOp::Xor, a.term(), b.term()),
            SymNum::If(c, a, b) => NumTerm::If {
                cond: Box::new(c.term()),
                if_true: Box::new(a.term()),
                if_false: Box::new(b.term()),
            },
        }
    }
}

impl SymBool {
    /// The plan term that the symbolic truth value stands for.
    pub open spec fn term(self) -> BoolTerm
        decreases self,
    {
        match self {
            SymBool::Eq(a, b) => term::holds_term(Comparison::Eq, a.term(), b.term()),
            SymBool::Ne(a, b) => term::holds_term(Comparison::Ne, a.term(), b.term()),
            SymBool::Lt(a, b) => term::holds_term(Comparison::Lt, a.term(), b.term()),
            SymBool::Gt(a, b) => term::holds_term(Comparison::Gt, a.term(), b.term()),
            SymBool::Lte(a, b) => term::holds_term(Comparison::Lte, a.term(), b.term()),
            SymBool::Gte(a, b) => term::holds_term(Comparison::Gte, a.term(), b.term()),
        }
    }
}

/// The terms of a list of symbolic byte-strings.
pub open spec fn sym_terms(parts: Seq<Rc<SymBytes>>) -> Seq<BytesTerm> {
    Seq::new(parts.len(), |i: int| parts[i].term())
}

proof fn lemma_sym_concat(parts: Vec<Rc<SymBytes>>)
    ensures
        SymBytes::Concat(parts).term() == BytesTerm::Concat(sym_terms(parts@)),
{
    assert(SymBytes::Concat(parts).term()->Concat_0 =~= sym_terms(parts@));
}

/// Provenance of a single memory byte: byte `index` of the value of `src`. Bytes
/// that were tagged together, and copies of them, carry the same `stamp`.
#[derive(Debug, PartialEq, Eq)]
pub struct ByteProv {
    pub src: Rc<SymBytes>,
    pub index: u32,
    /// When the source came into being, and which of those of that moment it is.
    pub stamp: (u64, u32),
}

impl SymBytes {
    pub fn rc(self) -> (r: Rc<SymBytes>)
        ensures
            *r == self,
    {
        Rc::new(self)
    }
}

impl SymNum {
    pub fn rc(self) -> (r: Rc<SymNum>)
        ensures
            *r == self,
    {
        Rc::new(self)
    }
}

impl SymBool {
    pub fn rc(self) -> (r: Rc<SymBool>)
        ensures
            *r == self,
    {
        Rc::new(self)
    }
}

impl Clone for SymBytes {
    fn clone(&self) -> (r: Self)
        ensures
            r.term() == self.term(),
    {
        self.copy()
    }
}

impl Clone for SymNum {
    fn clone(&self) -> (r: Self)
        ensures
            r == *self,
    {
        match self {
            SymNum::Const(n) => SymNum::Const(*n),
            SymNum::ULe(b) => SymNum::ULe(share(b)),
            SymNum::Len(b) => SymNum::Len(share(b)),
            SymNum::Height => SymNum::Height,
            SymNum::Word(i) => SymNum::Word(*i),
            SymNum::Add(a, b) => SymNum::Add(share(a), share(b)),
            SymNum::Sub(a, b) => SymNum::Sub(share(a), share(b)),
            SymNum::Mul(a, b) => SymNum::Mul(share(a), share(b)),
            SymNum::Div(a, b) => SymNum::Div(share(a), share(b)),
            SymNum::Mod(a, b) => SymNum::Mod(share(a), share(b)),
            SymNum::Shr(a, b) => SymNum::Shr(share(a), share(b)),
            SymNum::Shl(a, b) => SymNum::Shl(share(a), share(b)),
            SymNum::And(a, b) => SymNum::And(share(a), share(b)),
            SymNum::Or(a, b) => SymNum::Or(share(a), share(b)),
            SymNum::Xor(a, b) => SymNum::Xor(share(a), share(b)),
            SymNum::If(c, a, b) => SymNum::If(share(c), share(a), share(b)),
        }
    }
}

impl Clone for SymBool {
    fn clone(&self) -> (r: Self)
        ensures
            r == *self,
    {
        match self {
            SymBool::Eq(a, b) => SymBool::Eq(share(a), share(b)),
            SymBool::Ne(a, b) => SymBool::Ne(share(a), share(b)),
            SymBool::Lt(a, b) => SymBool::Lt(share(a), share(b)),
            SymBool::Gt(a, b) => SymBool::Gt(share(a), share(b)),
            SymBool::Lte(a, b) => SymBool::Lte(share(a), share(b)),
            SymBool::Gte(a, b) => SymBool::Gte(share(a), share(b)),
        }
    }
}

/*──────────────────────── lowering to plan expressions ────────────────────────*/

fn lower_pair(a: Option<NumExpr>, b: Option<NumExpr>) -> (r: Option<(Box<NumExpr>, Box<NumExpr>)>)
    ensures
        match r {
            Some((x, y)) => a == Some(*x) && b == Some(*y),
            None => a is None || b is None,
        },
{
    match (a, b) {
        (Some(x), Some(y)) => Some((Box::new(x), Box::new(y))),
        _ => None,
    }
}

impl SymNum {
    /// The plan expression of the same term. Every symbolic number has one.
    pub fn lower(&self) -> (r: Option<NumExpr>)
        ensures
            r matches Some(e) && e.term() == self.term(),
        decreases self,
    {
        match self {
            SymNum::Const(n) => Some(NumExpr::Const(*n)),
            SymNum::ULe(b) => match b.lower() {
                Some(b) => Some(NumExpr::ULe(Box::new(b))),
                None => None,
            },
            SymNum::Len(b) => match b.lower() {
                Some(b) => Some(NumExpr::Len(Box::new(b))),
                None => None,
            },
            SymNum::Height => Some(NumExpr::Height),
            SymNum::Word(i) => Some(NumExpr::Word(*i)),
            SymNum::Add(a, b) => match lower_pair(a.lower(), b.lower()) {
                Some((x, y)) => Some(NumExpr::Add(x, y)),
                None => None,
            },
            SymNum::Sub(a, b) => match lower_pair(a.lower(), b.lower()) {
                Some((x, y)) => Some(NumExpr::Sub(x, y)),
                None => None,
            },
            SymNum::Mul(a, b) => match lower_pair(a.lower(), b.lower()) {
                Some((x, y)) => Some(NumExpr::Mul(x, y)),
                None => None,
            },
            SymNum::Div(a, b) => match lower_pair(a.lower(), b.lower()) {
                Some((x, y)) => Some(NumExpr::Div(x, y)),
                None => None,
            },
            SymNum::Mod(a, b) => match lower_pair(a.lower(), b.lower()) {
                Some((x, y)) => Some(NumExpr::Mod(x, y)),
                None => None,
            },
            SymNum::Shr(a, b) => match lower_pair(a.lower(), b.lower()) {
                Some((x, y)) => Some(NumExpr::Shr(x, y)),
                None => None,
            },
            SymNum::Shl(a, b) => match lower_pair(a.lower(), b.lower()) {
                Some((x, y)) => Some(NumExpr::Shl(x, y)),
                None => None,
            },
            SymNum::And(a, b) => match lower_pair(a.lower(), b.lower()) {
                Some((x, y)) => Some(NumExpr::And(x, y)),
                None => None,
            },
            SymNum::Or(a, b) => match lower_pair(a.lower(), b.lower()) {
                Some((x, y)) => Some(NumExpr::Or(x, y)),
                None => None,
            },
            SymNum::Xor(a, b) => match lower_pair(a.lower(), b.lower()) {
                Some((x, y)) => Some(NumExpr::Xor(x, y)),
                None => None,
            },
            SymNum::If(c, a, b) => match (c.lower(), lower_pair(a.lower(), b.lower())) {
                (Some(c), Some((x, y))) => Some(NumExpr::If { cond: Box::new(c), if_true: x, if_false: y }),
                _ => None,
            },
        }
    }
}

impl SymBool {
    /// The plan expression of the same term. Every symbolic truth value has one.
    pub fn lower(&self) -> (r: Option<BoolExpr>)
        ensures
            r matches Some(e) && e.term() == self.term(),
        decreases self,
    {
        match self {
            SymBool::Eq(a, b) => match lower_pair(a.lower(), b.lower()) {
                Some((x, y)) => Some(BoolExpr::Eq(x, y)),
                None => None,
            },
            SymBool::Ne(a, b) => match lower_pair(a.lower(), b.lower()) {
                Some((x, y)) => Some(BoolExpr::Ne(x, y)),
                None => None,
            },
            SymBool::Lt(a, b) => match lower_pair(a.lower(), b.lower()) {
                Some((x, y)) => Some(BoolExpr::Lt(x, y)),
                None => None,
            },
            SymBool::Gt(a, b) => match lower_pair(a.lower(), b.lower()) {
                Some((x, y)) => Some(BoolExpr::Gt(x, y)),
                None => None,
            },
            SymBool::Lte(a, b) => match lower_pair(a.lower(), b.lower()) {
                Some((x, y)) => Some(BoolExpr::Lte(x, y)),
                None => None,
            },
            SymBool::Gte(a, b) => match lower_pair(a.lower(), b.lower()) {
                Some((x, y)) => Some(BoolExpr::Gte(x, y)),
                None => None,
            },
        }
    }
}

fn lower_all(parts: &Vec<Rc<SymBytes>>) -> (r: Option<Vec<BytesExpr>>)
    ensures
        r matches Some(v) && term::bytes_terms(v@) == sym_terms(parts@),
    decreases parts,
{
    let mut out: Vec<BytesExpr> = Vec::new();
    let n = parts.len();
    for i in 0..n
        invariant
            n == parts@.len(),
            out@.len() == i,
            forall|j: int| 0 <= j < i ==> (#[trigger] out@[j]).term() == parts@[j].term(),
    {
        match parts[i].lower() {
            Some(p) => out.push(p),
            None => return None,
        }
    }
    assert(term::bytes_terms(out@) =~= sym_terms(parts@));
    Some(out)
}

/// Joins constants that come to stand next to each other.
pub open spec fn merge_push(out: Seq<BytesTerm>, p: BytesTerm) -> Seq<BytesTerm> {
    if out.len() > 0 && out.last() is Const && p is Const {
        out.drop_last().push(BytesTerm::Const(out.last()->Const_0 + p->Const_0))
    } else {
        out.push(p)
    }
}

/// The parts, with adjacent constants joined.
pub open spec fn merged(parts: Seq<BytesTerm>) -> Seq<BytesTerm>
    decreases parts.len(),
{
    if parts.len() == 0 {
        Seq::empty()
    } else {
        merge_push(merged(parts.drop_last()), parts.last())
    }
}

/// The parts, with the concatenations among them opened up.
pub open spec fn flat(parts: Seq<BytesTerm>) -> Seq<BytesTerm>
    decreases parts.len(),
{
    if parts.len() == 0 {
        Seq::empty()
    } else {
        match parts.last() {
            BytesTerm::Concat(inner) => flat(parts.drop_last()) + inner,
            p => flat(parts.drop_last()).push(p),
        }
    }
}

fn share_all(out: &mut Vec<Rc<SymBytes>>, parts: &Vec<Rc<SymBytes>>)
    ensures
        sym_terms(final(out)@) == sym_terms(old(out)@) + sym_terms(parts@),
{
    let ghost before = sym_terms(out@);
    let n = parts.len();
    assert(sym_terms(out@) =~= before + sym_terms(parts@).take(0));
    for i in 0..n
        invariant
            n == parts@.len(),
            sym_terms(out@) == before + sym_terms(parts@).take(i as int),
    {
        let p = share(&parts[i]);
        let ghost was = sym_terms(out@);
        out.push(p);
        assert(sym_terms(out@) =~= was.push(parts@[i as int].term()));
        assert(sym_terms(parts@).take(i + 1) =~= sym_terms(parts@).take(i as int).push(parts@[i as int].term()));
        assert(sym_terms(out@) =~= before + sym_terms(parts@).take(i + 1));
    }
    assert(sym_terms(parts@).take(n as int) =~= sym_terms(parts@));
}

impl SymBytes {
    /// The plan expression of the same term. Every symbolic byte-string has one.
    pub fn lower(&self) -> (r: Option<BytesExpr>)
        ensures
            r matches Some(e) && e.term() == self.term(),
        decreases self,
    {
        match self {
            SymBytes::Const(b) => Some(BytesExpr::Const(copy_bytes(b.as_slice()))),
            SymBytes::Storage(k) => match k.lower() {
                Some(k) => Some(BytesExpr::Storage(Box::new(k))),
                None => None,
            },
            SymBytes::Calldata { start, len } => Some(BytesExpr::Calldata { start: *start, len: *len }),
            SymBytes::Concat(parts) => {
                proof {
                    lemma_sym_concat(*parts);
                }
                match lower_all(parts) {
                    Some(out) => Some(BytesExpr::Concat(out)),
                    None => None,
                }
            }
            SymBytes::Le { of, width } => match of.lower() {
                Some(of) => Some(BytesExpr::Le { of: Box::new(of), width: *width }),
                None => None,
            },
        }
    }

    /// The same symbolic bytes, with handles on the same parts.
    pub fn copy(&self) -> (r: SymBytes)
        ensures
            r.term() == self.term(),
    {
        match self {
            SymBytes::Const(b) => SymBytes::Const(copy_bytes(b.as_slice())),
            SymBytes::Storage(k) => SymBytes::Storage(share(k)),
            SymBytes::Calldata { start, len } => SymBytes::Calldata { start: *start, len: *len },
            SymBytes::Concat(parts) => {
                let mut out: Vec<Rc<SymBytes>> = Vec::new();
                share_all(&mut out, parts);
                proof {
                    lemma_sym_concat(*parts);
                    lemma_sym_concat(out);
                    assert(sym_terms(out@) =~= sym_terms(parts@));
                }
                SymBytes::Concat(out)
            }
            SymBytes::Le { of, width } => SymBytes::Le { of: share(of), width: *width },
        }
    }

    /// Flatten nested concats and merge adjacent constants for a tidy plan.
    pub fn normalize(parts: Vec<Rc<SymBytes>>) -> (r: SymBytes)
        ensures
            r.term() == concat_of(merged(flat(sym_terms(parts@)))),
    {
        let ghost ts = sym_terms(parts@);
        let mut flattened: Vec<Rc<SymBytes>> = Vec::new();
        let n = parts.len();
        assert(sym_terms(flattened@) =~= flat(ts.take(0)));
        for i in 0..n
            invariant
                n == parts@.len(),
                ts == sym_terms(parts@),
                sym_terms(flattened@) == flat(ts.take(i as int)),
        {
            assert(ts.take(i + 1).drop_last() =~= ts.take(i as int));
            assert(ts.take(i + 1).last() == parts@[i as int].term());
            match &*parts[i] {
                SymBytes::Concat(inner) => {
                    proof {
                        lemma_sym_concat(*inner);
                    }
                    share_all(&mut flattened, inner);
                }
                _ => {
                    let ghost was = sym_terms(flattened@);
                    flattened.push(share(&parts[i]));
                    assert(sym_terms(flattened@) =~= was.push(parts@[i as int].term()));
                }
            }
        }
        assert(ts.take(n as int) =~= ts);
        let ghost fs = sym_terms(flattened@);
        let mut out: Vec<Rc<SymBytes>> = Vec::new();
        let m = flattened.len();
        assert(sym_terms(out@) =~= merged(fs.take(0)));
        for i in 0..m
            invariant
                m == flattened@.len(),
                fs == sym_terms(flattened@),
                sym_terms(out@) == merged(fs.take(i as int)),
        {
            assert(fs.take(i + 1).drop_last() =~= fs.take(i as int));
            assert(fs.take(i + 1).last() == flattened@[i as int].term());
            let ghost was = sym_terms(out@);
            let p = share(&flattened[i]);
            let joined: Option<SymBytes> = if out.len() > 0 {
                match (&*out[out.len() - 1], &*p) {
                    (SymBytes::Const(a), SymBytes::Const(b)) => {
                        let mut all = copy_bytes(a.as_slice());
                        let mut tail = copy_bytes(b.as_slice());
                        all.append(&mut tail);
                        assert(was.last() == BytesTerm::Const(a@));
                        Some(SymBytes::Const(all))
                    }
                    _ => None,
                }
            } else {
                None
            };
            match joined {
                Some(j) => {
                    let last: usize = out.len() - 1;
                    out.set(last, j.rc());
                    assert(sym_terms(out@) =~= was.drop_last().push(j.term()));
                }
                None => {
                    proof {
                        if out@.len() > 0 {
                            assert(was.last() == out@.last().term());
                        }
                    }
                    out.push(p);
                    assert(sym_terms(out@) =~= was.push(p.term()));
                }
            }
        }
        assert(fs.take(m as int) =~= fs);
        if out.len() == 1 {
            let r = out[0].copy();
            assert(sym_terms(out@)[0] == out@[0].term());
            r
        } else {
            proof {
                lemma_sym_concat(out);
            }
            SymBytes::Concat(out)
        }
    }
}

} // verus!
