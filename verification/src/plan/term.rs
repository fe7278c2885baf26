//! The expressions of the plan language, and their mathematical terms.
use vstd::prelude::*;

verus! {

/// A byte-string expression.
#[derive(Debug, PartialEq, Eq)]
#[allow(inconsistent_fields)]
pub enum BytesExpr {
    /// Constant bytes.
    Const(Vec<u8>),
    /// The storage value at a (computed) key.
    Storage(Box<BytesExpr>),
    /// Bytes `start..start+len` of the flattened post-opcode calldata words
    /// (`len` = None means "to the end").
    Calldata { start: u32, len: Option<u32> },
    Concat(Vec<BytesExpr>),
    Slice { of: Box<BytesExpr>, start: Box<NumExpr>, len: Box<NumExpr> },
    /// Little-endian encoding of a number, `width` bytes.
    Le { of: Box<NumExpr>, width: u8 },
    If { cond: Box<BoolExpr>, if_true: Box<BytesExpr>, if_false: Box<BytesExpr> },
    /// Concatenation of `body` evaluated for var = 0..count.
    Loop { count: Box<NumExpr>, body: Box<BytesExpr> },
    /// ASCII lowercase hex of the inner bytes.
    Hex(Box<BytesExpr>),
    /// ASCII decimal of a number.
    Decimal(Box<NumExpr>),
}

/// A number expression.
#[derive(Debug, PartialEq, Eq)]
#[allow(inconsistent_fields)]
pub enum NumExpr {
    Const(u128),
    /// Post-opcode input word `i`.
    Word(u32),
    /// Little-endian uint of (at most the first 16) bytes.
    ULe(Box<BytesExpr>),
    Len(Box<BytesExpr>),
    Height,
    /// The innermost loop variable.
    Var,
    Add(Box<NumExpr>, Box<NumExpr>),
    Sub(Box<NumExpr>, Box<NumExpr>),
    Mul(Box<NumExpr>, Box<NumExpr>),
    Div(Box<NumExpr>, Box<NumExpr>),
    Mod(Box<NumExpr>, Box<NumExpr>),
    /// Bitwise / shift, matching the wasm integer ops (u128 semantics; a shift
    /// amount of 128 or more yields 0).
    Shr(Box<NumExpr>, Box<NumExpr>),
    Shl(Box<NumExpr>, Box<NumExpr>),
    And(Box<NumExpr>, Box<NumExpr>),
    Or(Box<NumExpr>, Box<NumExpr>),
    Xor(Box<NumExpr>, Box<NumExpr>),
    /// Conditional value, the numeric analogue of `BytesExpr::If`.
    If { cond: Box<BoolExpr>, if_true: Box<NumExpr>, if_false: Box<NumExpr> },
}

/// A truth-valued expression.
#[derive(Debug, PartialEq, Eq)]
#[allow(inconsistent_fields)]
pub enum BoolExpr {
    Eq(Box<NumExpr>, Box<NumExpr>),
    Ne(Box<NumExpr>, Box<NumExpr>),
    Lt(Box<NumExpr>, Box<NumExpr>),
    Lte(Box<NumExpr>, Box<NumExpr>),
    Gt(Box<NumExpr>, Box<NumExpr>),
    Gte(Box<NumExpr>, Box<NumExpr>),
    BytesEq(Box<BytesExpr>, Box<BytesExpr>),
    And(Vec<BoolExpr>),
    Or(Vec<BoolExpr>),
    Not(Box<BoolExpr>),
}

/// What a [`BytesExpr`] is, as a mathematical term.
#[allow(inconsistent_fields)]
pub enum BytesTerm {
    Const(Seq<u8>),
    Storage(Box<BytesTerm>),
    Calldata { start: u32, len: Option<u32> },
    Concat(Seq<BytesTerm>),
    Slice { of: Box<BytesTerm>, start: Box<NumTerm>, len: Box<NumTerm> },
    Le { of: Box<NumTerm>, width: u8 },
    If { cond: Box<BoolTerm>, if_true: Box<BytesTerm>, if_false: Box<BytesTerm> },
    Loop { count: Box<NumTerm>, body: Box<BytesTerm> },
    Hex(Box<BytesTerm>),
    Decimal(Box<NumTerm>),
}

/// The binary operations on numbers.
pub enum NumOp {
    Add,
    Sub,
    Mul,
    Div,
    Mod,
    Shr,
    Shl,
    And,
    Or,
    Xor,
}

/// What a [`NumExpr`] is, as a mathematical term.
#[allow(inconsistent_fields)]
pub enum NumTerm {
    Const(u128),
    Word(u32),
    ULe(Box<BytesTerm>),
    Len(Box<BytesTerm>),
    Height,
    Var,
    Op(NumOp, Box<NumTerm>, Box<NumTerm>),
    If { cond: Box<BoolTerm>, if_true: Box<NumTerm>, if_false: Box<NumTerm> },
}

/// The comparisons of numbers.
pub enum Comparison {
    Eq,
    Ne,
    Lt,
    Lte,
    Gt,
    Gte,
}

/// What a [`BoolExpr`] is, as a mathematical term.
pub enum BoolTerm {
    Holds(Comparison, Box<NumTerm>, Box<NumTerm>),
    BytesEq(Box<BytesTerm>, Box<BytesTerm>),
    And(Seq<BoolTerm>),
    Or(Seq<BoolTerm>),
    Not(Box<BoolTerm>),
}

impl BytesExpr {
    pub open spec fn term(self) -> BytesTerm
        decreases self,
    {
        match self {
            BytesExpr::Const(b) => BytesTerm::Const(b@),
            BytesExpr::Storage(k) => BytesTerm::Storage(Box::new(k.term())),
            BytesExpr::Calldata { start, len } => BytesTerm::Calldata { start, len },
            BytesExpr::Concat(parts) => BytesTerm::Concat(
                Seq::new(
                    parts@.len(),
                    |i: int| if 0 <= i < parts@.len() { parts@[i].term() } else { arbitrary() },
                ),
            ),
            BytesExpr::Slice { of, start, len } => BytesTerm::Slice {
                of: Box::new(of.term()),
                start: Box::new(start.term()),
                len: Box::new(len.term()),
            },
            BytesExpr::Le { of, width } => BytesTerm::Le { of: Box::new(of.term()), width },
            BytesExpr::If { cond, if_true, if_false } => BytesTerm::If {
                cond: Box::new(cond.term()),
                if_true: Box::new(if_true.term()),
                if_false: Box::new(if_false.term()),
            },
            BytesExpr::Loop { count, body } => BytesTerm::Loop {
                count: Box::new(count.term()),
                body: Box::new(body.term()),
            },
            BytesExpr::Hex(b) => BytesTerm::Hex(Box::new(b.term())),
            BytesExpr::Decimal(n) => BytesTerm::Decimal(Box::new(n.term())),
        }
    }
}

pub open spec fn op_term(op: NumOp, a: NumTerm, b: NumTerm) -> NumTerm {
    NumTerm::Op(op, Box::new(a), Box::new(b))
}

pub open spec fn holds_term(c: Comparison, a: NumTerm, b: NumTerm) -> BoolTerm {
    BoolTerm::Holds(c, Box::new(a), Box::new(b))
}

impl NumExpr {
    pub open spec fn term(self) -> NumTerm
        decreases self,
    {
        match self {
            NumExpr::Const(n) => NumTerm::Const(n),
            NumExpr::Word(i) => NumTerm::Word(i),
            NumExpr::ULe(b) => NumTerm::ULe(Box::new(b.term())),
            NumExpr::Len(b) => NumTerm::Len(Box::new(b.term())),
            NumExpr::Height => NumTerm::Height,
            NumExpr::Var => NumTerm::Var,
            NumExpr::Add(a, b) => op_term(NumOp::Add, a.term(), b.term()),
            NumExpr::Sub(a, b) => op_term(NumOp::Sub, a.term(), b.term()),
            NumExpr::Mul(a, b) => op_term(NumOp::Mul, a.term(), b.term()),
            NumExpr::Div(a, b) => op_term(NumOp::Div, a.term(), b.term()),
            NumExpr::Mod(a, b) => op_term(NumOp::Mod, a.term(), b.term()),
            NumExpr::Shr(a, b) => op_term(NumOp::Shr, a.term(), b.term()),
            NumExpr::Shl(a, b) => op_term(NumOp::Shl, a.term(), b.term()),
            NumExpr::And(a, b) => op_term(NumOp::And, a.term(), b.term()),
            NumExpr::Or(a, b) => op_term(NumOp::Or, a.term(), b.term()),
            NumExpr::Xor(a, b) => op_term(NumOp::Xor, a.term(), b.term()),
            NumExpr::If { cond, if_true, if_false } => NumTerm::If {
                cond: Box::new(cond.term()),
                if_true: Box::new(if_true.term()),
                if_false: Box::new(if_false.term()),
            },
        }
    }
}

impl BoolExpr {
    pub open spec fn term(self) -> BoolTerm
        decreases self,
    {
        match self {
            BoolExpr::Eq(a, b) => holds_term(Comparison::Eq, a.term(), b.term()),
            BoolExpr::Ne(a, b) => holds_term(Comparison::Ne, a.term(), b.term()),
            BoolExpr::Lt(a, b) => holds_term(Comparison::Lt, a.term(), b.term()),
            BoolExpr::Lte(a, b) => holds_term(Comparison::Lte, a.term(), b.term()),
            BoolExpr::Gt(a, b) => holds_term(Comparison::Gt, a.term(), b.term()),
            BoolExpr::Gte(a, b) => holds_term(Comparison::Gte, a.term(), b.term()),
            BoolExpr::BytesEq(a, b) => BoolTerm::BytesEq(Box::new(a.term()), Box::new(b.term())),
            BoolExpr::And(parts) => BoolTerm::And(
                Seq::new(
                    parts@.len(),
                    |i: int| if 0 <= i < parts@.len() { parts@[i].term() } else { arbitrary() },
                ),
            ),
            BoolExpr::Or(parts) => BoolTerm::Or(
                Seq::new(
                    parts@.len(),
                    |i: int| if 0 <= i < parts@.len() { parts@[i].term() } else { arbitrary() },
                ),
            ),
            BoolExpr::Not(b) => BoolTerm::Not(Box::new(b.term())),
        }
    }
}

/// The terms of a list of byte-string expressions.
pub open spec fn bytes_terms(parts: Seq<BytesExpr>) -> Seq<BytesTerm> {
    Seq::new(parts.len(), |i: int| parts[i].term())
}

/// The terms of a list of truth-valued expressions.
pub open spec fn bool_terms(parts: Seq<BoolExpr>) -> Seq<BoolTerm> {
    Seq::new(parts.len(), |i: int| parts[i].term())
}

pub broadcast proof fn lemma_concat_term(parts: Vec<BytesExpr>)
    ensures
        #[trigger] BytesExpr::Concat(parts).term() == BytesTerm::Concat(bytes_terms(parts@)),
{
    assert(BytesExpr::Concat(parts).term()->Concat_0 =~= bytes_terms(parts@));
}

pub broadcast proof fn lemma_and_term(parts: Vec<BoolExpr>)
    ensures
        #[trigger] BoolExpr::And(parts).term() == BoolTerm::And(bool_terms(parts@)),
{
    assert(BoolExpr::And(parts).term()->And_0 =~= bool_terms(parts@));
}

pub broadcast proof fn lemma_or_term(parts: Vec<BoolExpr>)
    ensures
        #[trigger] BoolExpr::Or(parts).term() == BoolTerm::Or(bool_terms(parts@)),
{
    assert(BoolExpr::Or(parts).term()->Or_0 =~= bool_terms(parts@));
}

pub broadcast group group_list_terms {
    lemma_concat_term,
    lemma_and_term,
    lemma_or_term,
}

} // verus!
