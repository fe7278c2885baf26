//! Copying and comparing expressions.
use vstd::prelude::*;
use crate::bytes::{copy_bytes, same_bytes};
use crate::plan::term;
use crate::plan::{BoolExpr, BytesExpr, NumExpr, Plan};

verus! {

broadcast use term::group_list_terms;

/// Copies a list of expressions.
pub fn copy_bytes_exprs(parts: &Vec<BytesExpr>) -> (r: Vec<BytesExpr>)
    ensures
        term::bytes_terms(r@) == term::bytes_terms(parts@),
    decreases parts,
{
    let mut out: Vec<BytesExpr> = Vec::new();
    let n = parts.len();
    for i in 0..n
        invariant
            n == parts@.len(),
            out@.len() == i,
            forall|j: int| 0 <= j < i ==> (#[trigger] out@[j]).term() == parts@[j].term(),
    {
        let part = parts[i].copy();
        out.push(part);
    }
    assert(term::bytes_terms(out@) =~= term::bytes_terms(parts@));
    out
}

fn copy_bool_exprs(parts: &Vec<BoolExpr>) -> (r: Vec<BoolExpr>)
    ensures
        term::bool_terms(r@) == term::bool_terms(parts@),
    decreases parts,
{
    let mut out: Vec<BoolExpr> = Vec::new();
    let n = parts.len();
    for i in 0..n
        invariant
            n == parts@.len(),
            out@.len() == i,
            forall|j: int| 0 <= j < i ==> (#[trigger] out@[j]).term() == parts@[j].term(),
    {
        let part = parts[i].copy();
        out.push(part);
    }
    assert(term::bool_terms(out@) =~= term::bool_terms(parts@));
    out
}

fn same_bytes_exprs(a: &Vec<BytesExpr>, b: &Vec<BytesExpr>) -> (r: bool)
    ensures
        r == (term::bytes_terms(a@) == term::bytes_terms(b@)),
    decreases a,
{
    if a.len() != b.len() {
        assert(term::bytes_terms(a@).len() != term::bytes_terms(b@).len());
        return false;
    }
    let n = a.len();
    for i in 0..n
        invariant
            n == a@.len() == b@.len(),
            forall|j: int| 0 <= j < i ==> (#[trigger] a@[j]).term() == b@[j].term(),
    {
        if !a[i].same(&b[i]) {
            assert(term::bytes_terms(a@)[i as int] != term::bytes_terms(b@)[i as int]);
            return false;
        }
    }
    assert(term::bytes_terms(a@) =~= term::bytes_terms(b@));
    true
}

fn same_bool_exprs(a: &Vec<BoolExpr>, b: &Vec<BoolExpr>) -> (r: bool)
    ensures
        r == (term::bool_terms(a@) == term::bool_terms(b@)),
    decreases a,
{
    if a.len() != b.len() {
        assert(term::bool_terms(a@).len() != term::bool_terms(b@).len());
        return false;
    }
    let n = a.len();
    for i in 0..n
        invariant
            n == a@.len() == b@.len(),
            forall|j: int| 0 <= j < i ==> (#[trigger] a@[j]).term() == b@[j].term(),
    {
        if !a[i].same(&b[i]) {
            assert(term::bool_terms(a@)[i as int] != term::bool_terms(b@)[i as int]);
            return false;
        }
    }
    assert(term::bool_terms(a@) =~= term::bool_terms(b@));
    true
}

impl BytesExpr {
    /// The same expression, again.
    pub fn copy(&self) -> (r: BytesExpr)
        ensures
            r.term() == self.term(),
        decreases self,
    {
        match self {
            BytesExpr::Const(b) => BytesExpr::Const(copy_bytes(b.as_slice())),
            BytesExpr::Storage(k) => BytesExpr::Storage(Box::new(k.copy())),
            BytesExpr::Calldata { start, len } => BytesExpr::Calldata { start: *start, len: *len },
            BytesExpr::Concat(parts) => BytesExpr::Concat(copy_bytes_exprs(parts)),
            BytesExpr::Slice { of, start, len } => BytesExpr::Slice {
                of: Box::new(of.copy()),
                start: Box::new(start.copy()),
                len: Box::new(len.copy()),
            },
            BytesExpr::Le { of, width } => BytesExpr::Le { of: Box::new(of.copy()), width: *width },
            BytesExpr::If { cond, if_true, if_false } => BytesExpr::If {
                cond: Box::new(cond.copy()),
                if_true: Box::new(if_true.copy()),
                if_false: Box::new(if_false.copy()),
            },
            BytesExpr::Loop { count, body } => BytesExpr::Loop {
                count: Box::new(count.copy()),
                body: Box::new(body.copy()),
            },
            BytesExpr::Hex(b) => BytesExpr::Hex(Box::new(b.copy())),
            BytesExpr::Decimal(n) => BytesExpr::Decimal(Box::new(n.copy())),
        }
    }

    /// Whether two expressions are the same term.
    pub fn same(&self, other: &BytesExpr) -> (r: bool)
        ensures
            r == (self.term() == other.term()),
        decreases self,
    {
        match (self, other) {
            (BytesExpr::Const(a), BytesExpr::Const(b)) => same_bytes(a.as_slice(), b.as_slice()),
            (BytesExpr::Storage(a), BytesExpr::Storage(b)) => a.same(b),
            (BytesExpr::Calldata { start: s, len: l }, BytesExpr::Calldata { start: t, len: m }) => {
                *s == *t && match (l, m) {
                    (Some(l), Some(m)) => *l == *m,
                    (None, None) => true,
                    _ => false,
                }
            }
            (BytesExpr::Concat(a), BytesExpr::Concat(b)) => same_bytes_exprs(a, b),
            (
                BytesExpr::Slice { of: a, start: s, len: l },
                BytesExpr::Slice { of: b, start: t, len: m },
            ) => a.same(b) && s.same(t) && l.same(m),
            (BytesExpr::Le { of: a, width: w }, BytesExpr::Le { of: b, width: v }) => {
                *w == *v && a.same(b)
            }
            (
                BytesExpr::If { cond: c, if_true: a, if_false: b },
                BytesExpr::If { cond: d, if_true: x, if_false: y },
            ) => c.same(d) && a.same(x) && b.same(y),
            (BytesExpr::Loop { count: c, body: a }, BytesExpr::Loop { count: d, body: b }) => {
                c.same(d) && a.same(b)
            }
            (BytesExpr::Hex(a), BytesExpr::Hex(b)) => a.same(b),
            (BytesExpr::Decimal(a), BytesExpr::Decimal(b)) => a.same(b),
            _ => false,
        }
    }
}

impl NumExpr {
    /// The same expression, again.
    pub fn copy(&self) -> (r: NumExpr)
        ensures
            r.term() == self.term(),
        decreases self,
    {
        match self {
            NumExpr::Const(n) => NumExpr::Const(*n),
            NumExpr::Word(i) => NumExpr::Word(*i),
            NumExpr::ULe(b) => NumExpr::ULe(Box::new(b.copy())),
            NumExpr::Len(b) => NumExpr::Len(Box::new(b.copy())),
            NumExpr::Height => NumExpr::Height,
            NumExpr::Var => NumExpr::Var,
            NumExpr::Add(a, b) => NumExpr::Add(Box::new(a.copy()), Box::new(b.copy())),
            NumExpr::Sub(a, b) => NumExpr::Sub(Box::new(a.copy()), Box::new(b.copy())),
            NumExpr::Mul(a, b) => NumExpr::Mul(Box::new(a.copy()), Box::new(b.copy())),
            NumExpr::Div(a, b) => NumExpr::Div(Box::new(a.copy()), Box::new(b.copy())),
            NumExpr::Mod(a, b) => NumExpr::Mod(Box::new(a.copy()), Box::new(b.copy())),
            NumExpr::Shr(a, b) => NumExpr::Shr(Box::new(a.copy()), Box::new(b.copy())),
            NumExpr::Shl(a, b) => NumExpr::Shl(Box::new(a.copy()), Box::new(b.copy())),
            NumExpr::And(a, b) => NumExpr::And(Box::new(a.copy()), Box::new(b.copy())),
            NumExpr::Or(a, b) => NumExpr::Or(Box::new(a.copy()), Box::new(b.copy())),
            NumExpr::Xor(a, b) => NumExpr::Xor(Box::new(a.copy()), Box::new(b.copy())),
            NumExpr::If { cond, if_true, if_false } => NumExpr::If {
                cond: Box::new(cond.copy()),
                if_true: Box::new(if_true.copy()),
                if_false: Box::new(if_false.copy()),
            },
        }
    }

    /// Whether two expressions are the same term.
    pub fn same(&self, other: &NumExpr) -> (r: bool)
        ensures
            r == (self.term() == other.term()),
        decreases self,
    {
        match (self, other) {
            (NumExpr::Const(a), NumExpr::Const(b)) => *a == *b,
            (NumExpr::Word(a), NumExpr::Word(b)) => *a == *b,
            (NumExpr::ULe(a), NumExpr::ULe(b)) => a.same(b),
            (NumExpr::Len(a), NumExpr::Len(b)) => a.same(b),
            (NumExpr::Height, NumExpr::Height) => true,
            (NumExpr::Var, NumExpr::Var) => true,
            (NumExpr::Add(a, b), NumExpr::Add(c, d)) => a.same(c) && b.same(d),
            (NumExpr::Sub(a, b), NumExpr::Sub(c, d)) => a.same(c) && b.same(d),
            (NumExpr::Mul(a, b), NumExpr::Mul(c, d)) => a.same(c) && b.same(d),
            (NumExpr::Div(a, b), NumExpr::Div(c, d)) => a.same(c) && b.same(d),
            (NumExpr::Mod(a, b), NumExpr::Mod(c, d)) => a.same(c) && b.same(d),
            (NumExpr::Shr(a, b), NumExpr::Shr(c, d)) => a.same(c) && b.same(d),
            (NumExpr::Shl(a, b), NumExpr::Shl(c, d)) => a.same(c) && b.same(d),
            (NumExpr::And(a, b), NumExpr::And(c, d)) => a.same(c) && b.same(d),
            (NumExpr::Or(a, b), NumExpr::Or(c, d)) => a.same(c) && b.same(d),
            (NumExpr::Xor(a, b), NumExpr::Xor(c, d)) => a.same(c) && b.same(d),
            (
                NumExpr::If { cond: c, if_true: a, if_false: b },
                NumExpr::If { cond: d, if_true: x, if_false: y },
            ) => c.same(d) && a.same(x) && b.same(y),
            _ => false,
        }
    }
}

impl BoolExpr {
    /// The same expression, again.
    pub fn copy(&self) -> (r: BoolExpr)
        ensures
            r.term() == self.term(),
        decreases self,
    {
        match self {
            BoolExpr::Eq(a, b) => BoolExpr::Eq(Box::new(a.copy()), Box::new(b.copy())),
            BoolExpr::Ne(a, b) => BoolExpr::Ne(Box::new(a.copy()), Box::new(b.copy())),
            BoolExpr::Lt(a, b) => BoolExpr::Lt(Box::new(a.copy()), Box::new(b.copy())),
            BoolExpr::Lte(a, b) => BoolExpr::Lte(Box::new(a.copy()), Box::new(b.copy())),
            BoolExpr::Gt(a, b) => BoolExpr::Gt(Box::new(a.copy()), Box::new(b.copy())),
            BoolExpr::Gte(a, b) => BoolExpr::Gte(Box::new(a.copy()), Box::new(b.copy())),
            BoolExpr::BytesEq(a, b) => BoolExpr::BytesEq(Box::new(a.copy()), Box::new(b.copy())),
            BoolExpr::And(parts) => BoolExpr::And(copy_bool_exprs(parts)),
            BoolExpr::Or(parts) => BoolExpr::Or(copy_bool_exprs(parts)),
            BoolExpr::Not(b) => BoolExpr::Not(Box::new(b.copy())),
        }
    }

    /// Whether two expressions are the same term.
    pub fn same(&self, other: &BoolExpr) -> (r: bool)
        ensures
            r == (self.term() == other.term()),
        decreases self,
    {
        match (self, other) {
            (BoolExpr::Eq(a, b), BoolExpr::Eq(c, d)) => a.same(c) && b.same(d),
            (BoolExpr::Ne(a, b), BoolExpr::Ne(c, d)) => a.same(c) && b.same(d),
            (BoolExpr::Lt(a, b), BoolExpr::Lt(c, d)) => a.same(c) && b.same(d),
            (BoolExpr::Lte(a, b), BoolExpr::Lte(c, d)) => a.same(c) && b.same(d),
            (BoolExpr::Gt(a, b), BoolExpr::Gt(c, d)) => a.same(c) && b.same(d),
            (BoolExpr::Gte(a, b), BoolExpr::Gte(c, d)) => a.same(c) && b.same(d),
            (BoolExpr::BytesEq(a, b), BoolExpr::BytesEq(c, d)) => a.same(c) && b.same(d),
            (BoolExpr::And(a), BoolExpr::And(b)) => same_bool_exprs(a, b),
            (BoolExpr::Or(a), BoolExpr::Or(b)) => same_bool_exprs(a, b),
            (BoolExpr::Not(a), BoolExpr::Not(b)) => a.same(b),
            _ => false,
        }
    }
}

impl Clone for Plan {
    fn clone(&self) -> (r: Self)
        ensures
            r.expr.term() == self.expr.term(),
            r.trials == self.trials,
    {
        Plan { expr: self.expr.copy(), trials: self.trials }
    }
}

impl Clone for BytesExpr {
    fn clone(&self) -> (r: Self)
        ensures
            r.term() == self.term(),
    {
        self.copy()
    }
}

impl Clone for NumExpr {
    fn clone(&self) -> (r: Self)
        ensures
            r.term() == self.term(),
    {
        self.copy()
    }
}

impl Clone for BoolExpr {
    fn clone(&self) -> (r: Self)
        ensures
            r.term() == self.term(),
    {
        self.copy()
    }
}

} // verus!
