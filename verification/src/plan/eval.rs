//! Evaluation of plan expressions.
//!
//!   - all numbers are u128; add/sub/mul wrap; div/mod by zero is an
//!     evaluation error (consumers must fall back to simulate)
//!   - `u` (uint-from-bytes) reads at most the first 16 bytes, little-endian
//!   - `calldata` addresses the post-opcode input words flattened into
//!     16-byte little-endian chunks (the standard word packing)
//!   - a missing storage key evaluates to zero-length bytes
//!   - `loop` concatenates its body for var = 0..count (bounded)
use vstd::prelude::*;
use crate::bytes;
use crate::bytes::{copy_bytes, cut, decode_le, encode_le, flatten_words, same_bytes};
use crate::plan::term;
use crate::plan::{
    BoolExpr, BoolTerm, BytesExpr, BytesTerm, Comparison, NumExpr, NumOp, NumTerm, Plan,
};

verus! {

broadcast use term::group_list_terms;

/// Safety bound on loop iterations during evaluation.
pub const LOOP_LIMIT: u128 = 65_536;

/// Why a plan has no value.
#[derive(Debug, Clone, Copy, PartialEq, Eq, Structural)]
#[allow(inconsistent_fields)]
pub enum PlanError {
    /// A calldata range starts past the end of the calldata.
    CalldataRange { start: u32 },
    /// A slice reaches past the end of its bytes.
    SliceRange { start: usize, len: usize, total: usize },
    /// A little-endian encoding is wider than a number.
    Width(u8),
    /// A loop runs too often.
    LoopCount(u128),
    /// An input word is missing.
    MissingWord(u32),
    /// The loop variable is used outside a loop.
    NoLoop,
    DivisionByZero,
    ModuloByZero,
}

/// The outside world that a plan is evaluated in.
pub struct World {
    pub storage: Map<Seq<u8>, Seq<u8>>,
    pub height: u64,
    pub words: Seq<u128>,
}

impl World {
    /// The storage value at a key; missing keys are zero-length.
    pub open spec fn value(self, key: Seq<u8>) -> Seq<u8> {
        if self.storage.dom().contains(key) {
            self.storage[key]
        } else {
            Seq::empty()
        }
    }

    /// The post-opcode input words as bytes.
    pub open spec fn calldata(self) -> Seq<u8> {
        bytes::words_bytes(self.words)
    }
}

/// Everything a plan may read from the outside world.
pub trait PlanEnv {
    /// The world that the environment shows; unknown, unless the environment says.
    open spec fn world(&self) -> World {
        arbitrary()
    }

    /// The keys asked for so far; unknown, unless the environment says.
    open spec fn asked(&self) -> Seq<Seq<u8>> {
        arbitrary()
    }

    /// Storage value for a key; missing keys are zero-length.
    fn storage(&mut self, key: &[u8]) -> (value: Vec<u8>)
        ensures
            value@ == old(self).world().value(key@),
            final(self).world() == old(self).world(),
            final(self).asked() == old(self).asked().push(key@),
    ;

    fn height(&self) -> (height: u64)
        ensures
            height == self.world().height,
    ;

    /// Post-opcode input words.
    fn words(&self) -> (words: &[u128])
        ensures
            words@ == self.world().words,
    ;
}

/// The two lowercase hex digits of each byte, as ASCII.
pub open spec fn hex_bytes(b: Seq<u8>) -> Seq<u8>
    decreases b.len(),
{
    if b.len() == 0 {
        Seq::empty()
    } else {
        hex_bytes(b.drop_last()).push(hex_ascii(b.last() / 16)).push(hex_ascii(b.last() % 16))
    }
}

/// A hex digit, as ASCII.
pub open spec fn hex_ascii(d: u8) -> u8 {
    if d < 10 {
        (48 + d) as u8
    } else {
        (87 + d) as u8
    }
}

/// The decimal digits of a number, as ASCII.
pub open spec fn decimal_ascii(n: int) -> Seq<u8>
    decreases n,
{
    if n < 10 {
        seq![(48 + n) as u8]
    } else {
        decimal_ascii(n / 10).push((48 + n % 10) as u8)
    }
}

/// The value of a binary operation.
pub open spec fn num_op(op: NumOp, a: u128, b: u128) -> u128 {
    match op {
        NumOp::Add => a.wrapping_add(b),
        NumOp::Sub => a.wrapping_sub(b),
        NumOp::Mul => a.wrapping_mul(b),
        NumOp::Div => a / b,
        NumOp::Mod => a % b,
        NumOp::Shr => if b >= 128 { 0 } else { a >> b },
        NumOp::Shl => if b >= 128 { 0 } else { a << b },
        NumOp::And => a & b,
        NumOp::Or => a | b,
        NumOp::Xor => a ^ b,
    }
}

/// Whether a comparison holds.
pub open spec fn compare(c: Comparison, a: u128, b: u128) -> bool {
    match c {
        Comparison::Eq => a == b,
        Comparison::Ne => a != b,
        Comparison::Lt => a < b,
        Comparison::Lte => a <= b,
        Comparison::Gt => a > b,
        Comparison::Gte => a >= b,
    }
}

/// The value of a byte-string term.
pub open spec fn bytes_value(e: BytesTerm, w: World, var: Option<u128>) -> Result<Seq<u8>, PlanError>
    decreases e, 0nat,
{
    match e {
        BytesTerm::Const(b) => Ok(b),
        BytesTerm::Storage(k) => match bytes_value(*k, w, var) {
            Ok(key) => Ok(w.value(key)),
            Err(x) => Err(x),
        },
        BytesTerm::Calldata { start, len } => calldata_value(w.calldata(), start, len),
        BytesTerm::Concat(parts) => concat_value(parts, w, var),
        BytesTerm::Slice { of, start, len } => match bytes_value(*of, w, var) {
            Err(x) => Err(x),
            Ok(b) => match num_value(*start, w, var) {
                Err(x) => Err(x),
                Ok(s) => match num_value(*len, w, var) {
                    Err(x) => Err(x),
                    Ok(l) => slice_value(b, s as usize, l as usize),
                },
            },
        },
        BytesTerm::Le { of, width } => match num_value(*of, w, var) {
            Err(x) => Err(x),
            Ok(n) => le_value(n, width),
        },
        BytesTerm::If { cond, if_true, if_false } => match bool_value(*cond, w, var) {
            Err(x) => Err(x),
            Ok(true) => bytes_value(*if_true, w, var),
            Ok(false) => bytes_value(*if_false, w, var),
        },
        BytesTerm::Loop { count, body } => match num_value(*count, w, var) {
            Err(x) => Err(x),
            Ok(n) => if n > LOOP_LIMIT {
                Err(PlanError::LoopCount(n))
            } else {
                loop_value(*body, w, n as nat)
            },
        },
        BytesTerm::Hex(b) => match bytes_value(*b, w, var) {
            Err(x) => Err(x),
            Ok(b) => Ok(hex_bytes(b)),
        },
        BytesTerm::Decimal(n) => match num_value(*n, w, var) {
            Err(x) => Err(x),
            Ok(n) => Ok(decimal_ascii(n as int)),
        },
    }
}

/// Bytes `start..start+len` of the calldata, as far as it reaches.
pub open spec fn calldata_value(all: Seq<u8>, start: u32, len: Option<u32>) -> Result<Seq<u8>, PlanError> {
    if start > all.len() {
        Err(PlanError::CalldataRange { start })
    } else {
        let end = match len {
            Some(len) => if start + len < all.len() { start + len } else { all.len() as int },
            None => all.len() as int,
        };
        Ok(all.subrange(start as int, end))
    }
}

/// Bytes `start..start+len`, if they are there.
pub open spec fn slice_value(b: Seq<u8>, start: usize, len: usize) -> Result<Seq<u8>, PlanError> {
    if start + len > b.len() {
        Err(PlanError::SliceRange { start, len, total: b.len() as usize })
    } else {
        Ok(b.subrange(start as int, start + len))
    }
}

/// The low `width` bytes of a number.
pub open spec fn le_value(n: u128, width: u8) -> Result<Seq<u8>, PlanError> {
    if width > 16 {
        Err(PlanError::Width(width))
    } else {
        Ok(bytes::le_bytes(n as int, width as nat))
    }
}

/// The values of the parts, one after the other; the first error, if there is one.
pub open spec fn concat_value(parts: Seq<BytesTerm>, w: World, var: Option<u128>) -> Result<Seq<u8>, PlanError>
    decreases parts, 0nat,
{
    if parts.len() == 0 {
        Ok(Seq::empty())
    } else {
        match concat_value(parts.drop_last(), w, var) {
            Err(x) => Err(x),
            Ok(b) => match bytes_value(parts.last(), w, var) {
                Err(x) => Err(x),
                Ok(c) => Ok(b + c),
            },
        }
    }
}

/// The values of the body for var = 0..n, one after the other.
pub open spec fn loop_value(body: BytesTerm, w: World, n: nat) -> Result<Seq<u8>, PlanError>
    decreases body, n,
{
    if n == 0 {
        Ok(Seq::empty())
    } else {
        match loop_value(body, w, (n - 1) as nat) {
            Err(x) => Err(x),
            Ok(b) => match bytes_value(body, w, Some((n - 1) as u128)) {
                Err(x) => Err(x),
                Ok(c) => Ok(b + c),
            },
        }
    }
}

/// The value of a number term.
pub open spec fn num_value(e: NumTerm, w: World, var: Option<u128>) -> Result<u128, PlanError>
    decreases e, 0nat,
{
    match e {
        NumTerm::Const(n) => Ok(n),
        NumTerm::Word(i) => if i < w.words.len() {
            Ok(w.words[i as int])
        } else {
            Err(PlanError::MissingWord(i))
        },
        NumTerm::ULe(b) => match bytes_value(*b, w, var) {
            Err(x) => Err(x),
            Ok(b) => Ok(bytes::low_num(b)),
        },
        NumTerm::Len(b) => match bytes_value(*b, w, var) {
            Err(x) => Err(x),
            Ok(b) => Ok(b.len() as u128),
        },
        NumTerm::Height => Ok(w.height as u128),
        NumTerm::Var => match var {
            Some(n) => Ok(n),
            None => Err(PlanError::NoLoop),
        },
        NumTerm::Op(op, a, b) => op_value(op, num_value(*a, w, var), num_value(*b, w, var)),
        NumTerm::If { cond, if_true, if_false } => match bool_value(*cond, w, var) {
            Err(x) => Err(x),
            Ok(true) => num_value(*if_true, w, var),
            Ok(false) => num_value(*if_false, w, var),
        },
    }
}

/// Division, remainder and shifts look at their right operand first; a divisor
/// of zero is an error before the dividend is looked at.
pub open spec fn op_value(
    op: NumOp,
    a: Result<u128, PlanError>,
    b: Result<u128, PlanError>,
) -> Result<u128, PlanError> {
    match op {
        NumOp::Div | NumOp::Mod => match b {
            Err(x) => Err(x),
            Ok(d) => if d == 0 {
                Err(if op is Div { PlanError::DivisionByZero } else { PlanError::ModuloByZero })
            } else {
                match a {
                    Err(x) => Err(x),
                    Ok(n) => Ok(num_op(op, n, d)),
                }
            },
        },
        NumOp::Shr | NumOp::Shl => match b {
            Err(x) => Err(x),
            Ok(s) => match a {
                Err(x) => Err(x),
                Ok(n) => Ok(num_op(op, n, s)),
            },
        },
        _ => match a {
            Err(x) => Err(x),
            Ok(n) => match b {
                Err(x) => Err(x),
                Ok(m) => Ok(num_op(op, n, m)),
            },
        },
    }
}

/// The value of a truth-valued term.
pub open spec fn bool_value(e: BoolTerm, w: World, var: Option<u128>) -> Result<bool, PlanError>
    decreases e, 0nat,
{
    match e {
        BoolTerm::Holds(c, a, b) => match num_value(*a, w, var) {
            Err(x) => Err(x),
            Ok(n) => match num_value(*b, w, var) {
                Err(x) => Err(x),
                Ok(m) => Ok(compare(c, n, m)),
            },
        },
        BoolTerm::BytesEq(a, b) => match bytes_value(*a, w, var) {
            Err(x) => Err(x),
            Ok(n) => match bytes_value(*b, w, var) {
                Err(x) => Err(x),
                Ok(m) => Ok(n == m),
            },
        },
        BoolTerm::And(parts) => list_value(parts, true, w, var),
        BoolTerm::Or(parts) => list_value(parts, false, w, var),
        BoolTerm::Not(b) => match bool_value(*b, w, var) {
            Err(x) => Err(x),
            Ok(v) => Ok(!v),
        },
    }
}

/// Looks at the parts in order, as long as they are `unit`: the first other
/// value or error decides.
pub open spec fn list_value(parts: Seq<BoolTerm>, unit: bool, w: World, var: Option<u128>) -> Result<bool, PlanError>
    decreases parts, 0nat,
{
    if parts.len() == 0 {
        Ok(unit)
    } else {
        match list_value(parts.drop_last(), unit, w, var) {
            Err(x) => Err(x),
            Ok(v) => if v == unit {
                bool_value(parts.last(), w, var)
            } else {
                Ok(v)
            },
        }
    }
}

/* ─────────────── what is read ─────────────── */

/// What is read by two evaluations, of which the second follows only if the first
/// gives a value.
pub open spec fn both_reads(first: Seq<Seq<u8>>, ok: bool, second: Seq<Seq<u8>>) -> Seq<Seq<u8>> {
    if ok {
        first + second
    } else {
        first
    }
}

/// The storage keys that a byte-string term reads, in order, up to the first error.
pub open spec fn bytes_reads(e: BytesTerm, w: World, var: Option<u128>) -> Seq<Seq<u8>>
    decreases e, 0nat,
{
    match e {
        BytesTerm::Const(_) => Seq::empty(),
        BytesTerm::Storage(k) => match bytes_value(*k, w, var) {
            Ok(key) => bytes_reads(*k, w, var).push(key),
            Err(_) => bytes_reads(*k, w, var),
        },
        BytesTerm::Calldata { start, len } => Seq::empty(),
        BytesTerm::Concat(parts) => concat_reads(parts, w, var),
        BytesTerm::Slice { of, start, len } => both_reads(
            bytes_reads(*of, w, var),
            bytes_value(*of, w, var) is Ok,
            both_reads(num_reads(*start, w, var), num_value(*start, w, var) is Ok, num_reads(*len, w, var)),
        ),
        BytesTerm::Le { of, width } => num_reads(*of, w, var),
        BytesTerm::If { cond, if_true, if_false } => bool_reads(*cond, w, var) + (match bool_value(*cond, w, var) {
            Err(_) => Seq::empty(),
            Ok(true) => bytes_reads(*if_true, w, var),
            Ok(false) => bytes_reads(*if_false, w, var),
        }),
        BytesTerm::Loop { count, body } => num_reads(*count, w, var) + (match num_value(*count, w, var) {
            Err(_) => Seq::empty(),
            Ok(n) => if n > LOOP_LIMIT {
                Seq::empty()
            } else {
                loop_reads(*body, w, n as nat)
            },
        }),
        BytesTerm::Hex(b) => bytes_reads(*b, w, var),
        BytesTerm::Decimal(n) => num_reads(*n, w, var),
    }
}

/// What the parts read, up to one that fails.
pub open spec fn concat_reads(parts: Seq<BytesTerm>, w: World, var: Option<u128>) -> Seq<Seq<u8>>
    decreases parts, 0nat,
{
    if parts.len() == 0 {
        Seq::empty()
    } else {
        both_reads(
            concat_reads(parts.drop_last(), w, var),
            concat_value(parts.drop_last(), w, var) is Ok,
            bytes_reads(parts.last(), w, var),
        )
    }
}

/// What the body reads for var = 0..n, up to a round that fails.
pub open spec fn loop_reads(body: BytesTerm, w: World, n: nat) -> Seq<Seq<u8>>
    decreases body, n,
{
    if n == 0 {
        Seq::empty()
    } else {
        both_reads(
            loop_reads(body, w, (n - 1) as nat),
            loop_value(body, w, (n - 1) as nat) is Ok,
            bytes_reads(body, w, Some((n - 1) as u128)),
        )
    }
}

/// The storage keys that a number term reads.
pub open spec fn num_reads(e: NumTerm, w: World, var: Option<u128>) -> Seq<Seq<u8>>
    decreases e, 0nat,
{
    match e {
        NumTerm::Const(_) | NumTerm::Word(_) | NumTerm::Height | NumTerm::Var => Seq::empty(),
        NumTerm::ULe(b) => bytes_reads(*b, w, var),
        NumTerm::Len(b) => bytes_reads(*b, w, var),
        NumTerm::Op(op, a, b) => match op {
            NumOp::Div | NumOp::Mod => both_reads(
                num_reads(*b, w, var),
                num_value(*b, w, var) matches Ok(d) && d != 0,
                num_reads(*a, w, var),
            ),
            NumOp::Shr | NumOp::Shl => both_reads(
                num_reads(*b, w, var),
                num_value(*b, w, var) is Ok,
                num_reads(*a, w, var),
            ),
            _ => both_reads(num_reads(*a, w, var), num_value(*a, w, var) is Ok, num_reads(*b, w, var)),
        },
        NumTerm::If { cond, if_true, if_false } => bool_reads(*cond, w, var) + (match bool_value(*cond, w, var) {
            Err(_) => Seq::empty(),
            Ok(true) => num_reads(*if_true, w, var),
            Ok(false) => num_reads(*if_false, w, var),
        }),
    }
}

/// The storage keys that a truth-valued term reads.
pub open spec fn bool_reads(e: BoolTerm, w: World, var: Option<u128>) -> Seq<Seq<u8>>
    decreases e, 0nat,
{
    match e {
        BoolTerm::Holds(_, a, b) => both_reads(
            num_reads(*a, w, var),
            num_value(*a, w, var) is Ok,
            num_reads(*b, w, var),
        ),
        BoolTerm::BytesEq(a, b) => both_reads(
            bytes_reads(*a, w, var),
            bytes_value(*a, w, var) is Ok,
            bytes_reads(*b, w, var),
        ),
        BoolTerm::And(parts) => list_reads(parts, true, w, var),
        BoolTerm::Or(parts) => list_reads(parts, false, w, var),
        BoolTerm::Not(b) => bool_reads(*b, w, var),
    }
}

/// What the parts read, up to one that decides or fails.
pub open spec fn list_reads(parts: Seq<BoolTerm>, unit: bool, w: World, var: Option<u128>) -> Seq<Seq<u8>>
    decreases parts, 0nat,
{
    if parts.len() == 0 {
        Seq::empty()
    } else {
        both_reads(
            list_reads(parts.drop_last(), unit, w, var),
            list_value(parts.drop_last(), unit, w, var) == Ok::<bool, PlanError>(unit),
            bool_reads(parts.last(), w, var),
        )
    }
}

/* ─────────────── laws ─────────────── */

/// A conditional is its chosen branch: it has the value of that branch, and reads what
/// the condition and that branch read. The other branch is not evaluated: whatever
/// stands there, it reads nothing and its errors do not matter.
pub proof fn lemma_chosen_branch(cond: BoolTerm, if_true: BytesTerm, if_false: BytesTerm, w: World, var: Option<u128>, c: bool)
    requires
        bool_value(cond, w, var) == Ok::<bool, PlanError>(c),
    ensures
        ({
            let e = BytesTerm::If { cond: Box::new(cond), if_true: Box::new(if_true), if_false: Box::new(if_false) };
            let chosen = if c { if_true } else { if_false };
            &&& bytes_value(e, w, var) == bytes_value(chosen, w, var)
            &&& bytes_reads(e, w, var) == bool_reads(cond, w, var) + bytes_reads(chosen, w, var)
        }),
{
}

/// The same of a conditional number.
pub proof fn lemma_chosen_number(cond: BoolTerm, if_true: NumTerm, if_false: NumTerm, w: World, var: Option<u128>, c: bool)
    requires
        bool_value(cond, w, var) == Ok::<bool, PlanError>(c),
    ensures
        ({
            let e = NumTerm::If { cond: Box::new(cond), if_true: Box::new(if_true), if_false: Box::new(if_false) };
            let chosen = if c { if_true } else { if_false };
            &&& num_value(e, w, var) == num_value(chosen, w, var)
            &&& num_reads(e, w, var) == bool_reads(cond, w, var) + num_reads(chosen, w, var)
        }),
{
}

/// A loop beyond the limit is an error, and its body is not evaluated: only what the
/// count reads is read, whatever the body.
pub proof fn lemma_loop_beyond_limit(count: NumTerm, body: BytesTerm, w: World, var: Option<u128>, n: u128)
    requires
        num_value(count, w, var) == Ok::<u128, PlanError>(n),
        n > LOOP_LIMIT,
    ensures
        ({
            let e = BytesTerm::Loop { count: Box::new(count), body: Box::new(body) };
            &&& bytes_value(e, w, var) == Err::<Seq<u8>, PlanError>(PlanError::LoopCount(n))
            &&& bytes_reads(e, w, var) == num_reads(count, w, var)
        }),
{
}

/// A loop within the limit gives the bytes of its rounds, one after the other, and
/// reads what its count and its rounds read.
pub proof fn lemma_loop_rounds(count: NumTerm, body: BytesTerm, w: World, var: Option<u128>, rounds: Seq<Seq<u8>>)
    requires
        num_value(count, w, var) == Ok::<u128, PlanError>(rounds.len() as u128),
        rounds.len() <= LOOP_LIMIT,
        forall|i: int| 0 <= i < rounds.len() ==> (#[trigger] bytes_value(body, w, Some(i as u128))) == Ok::<Seq<u8>, PlanError>(rounds[i]),
    ensures
        ({
            let e = BytesTerm::Loop { count: Box::new(count), body: Box::new(body) };
            &&& bytes_value(e, w, var) == Ok::<Seq<u8>, PlanError>(rounds.flatten())
            &&& bytes_reads(e, w, var) == num_reads(count, w, var) + Seq::new(
                rounds.len(),
                |i: int| bytes_reads(body, w, Some(i as u128)),
            ).flatten()
        }),
{
    let reads = Seq::new(rounds.len(), |i: int| bytes_reads(body, w, Some(i as u128)));
    lemma_rounds(body, w, rounds, reads, rounds.len());
    assert(rounds.take(rounds.len() as int) =~= rounds);
    assert(reads.take(rounds.len() as int) =~= reads);
    rounds.lemma_flatten_and_flatten_alt_are_equivalent();
    reads.lemma_flatten_and_flatten_alt_are_equivalent();
}

proof fn lemma_rounds(body: BytesTerm, w: World, rounds: Seq<Seq<u8>>, reads: Seq<Seq<Seq<u8>>>, n: nat)
    requires
        n <= rounds.len() <= LOOP_LIMIT,
        reads.len() == rounds.len(),
        forall|i: int| 0 <= i < rounds.len() ==> (#[trigger] bytes_value(body, w, Some(i as u128))) == Ok::<Seq<u8>, PlanError>(rounds[i]),
        forall|i: int| 0 <= i < reads.len() ==> (#[trigger] reads[i]) == bytes_reads(body, w, Some(i as u128)),
    ensures
        loop_value(body, w, n) == Ok::<Seq<u8>, PlanError>(rounds.take(n as int).flatten_alt()),
        loop_reads(body, w, n) == reads.take(n as int).flatten_alt(),
    decreases n,
{
    if n > 0 {
        lemma_rounds(body, w, rounds, reads, (n - 1) as nat);
        assert(rounds.take(n as int).drop_last() =~= rounds.take(n - 1));
        assert(reads.take(n as int).drop_last() =~= reads.take(n - 1));
        assert(bytes_value(body, w, Some((n - 1) as u128)) == Ok::<Seq<u8>, PlanError>(rounds[n - 1]));
    }
}

/// A loop within the limit fails with its first round that fails, and reads nothing
/// after that round.
pub proof fn lemma_loop_fails(count: NumTerm, body: BytesTerm, w: World, var: Option<u128>, n: u128, k: u128, x: PlanError)
    requires
        num_value(count, w, var) == Ok::<u128, PlanError>(n),
        k < n <= LOOP_LIMIT,
        forall|i: u128| i < k ==> (#[trigger] bytes_value(body, w, Some(i))) is Ok,
        bytes_value(body, w, Some(k)) == Err::<Seq<u8>, PlanError>(x),
    ensures
        ({
            let e = BytesTerm::Loop { count: Box::new(count), body: Box::new(body) };
            &&& bytes_value(e, w, var) == Err::<Seq<u8>, PlanError>(x)
            &&& bytes_reads(e, w, var) == num_reads(count, w, var) + loop_reads(body, w, (k + 1) as nat)
        }),
{
    lemma_rounds_succeed(body, w, k as nat);
    assert(loop_value(body, w, (k + 1) as nat) == Err::<Seq<u8>, PlanError>(x));
    lemma_loop_failed(body, w, (k + 1) as nat, n as nat);
}

proof fn lemma_rounds_succeed(body: BytesTerm, w: World, k: nat)
    requires
        k <= LOOP_LIMIT,
        forall|i: u128| i < k ==> (#[trigger] bytes_value(body, w, Some(i))) is Ok,
    ensures
        loop_value(body, w, k) is Ok,
    decreases k,
{
    if k > 0 {
        lemma_rounds_succeed(body, w, (k - 1) as nat);
        assert(bytes_value(body, w, Some((k - 1) as u128)) is Ok);
    }
}

/* ─────────────── evaluation ─────────────── */

/// The parts after one that decides do not matter.
proof fn lemma_list_decided(parts: Seq<BoolTerm>, unit: bool, w: World, var: Option<u128>, k: int)
    requires
        0 <= k <= parts.len(),
        list_value(parts.take(k), unit, w, var) != Ok::<bool, PlanError>(unit),
    ensures
        list_value(parts, unit, w, var) == list_value(parts.take(k), unit, w, var),
        list_reads(parts, unit, w, var) == list_reads(parts.take(k), unit, w, var),
    decreases parts.len() - k,
{
    if k < parts.len() {
        assert(parts.take(k + 1).drop_last() =~= parts.take(k));
        lemma_list_decided(parts, unit, w, var, k + 1);
    } else {
        assert(parts.take(k) =~= parts);
    }
}

/// The parts after one that fails do not matter.
proof fn lemma_concat_failed(parts: Seq<BytesTerm>, w: World, var: Option<u128>, k: int)
    requires
        0 <= k <= parts.len(),
        concat_value(parts.take(k), w, var) is Err,
    ensures
        concat_value(parts, w, var) == concat_value(parts.take(k), w, var),
        concat_reads(parts, w, var) == concat_reads(parts.take(k), w, var),
    decreases parts.len() - k,
{
    if k < parts.len() {
        assert(parts.take(k + 1).drop_last() =~= parts.take(k));
        lemma_concat_failed(parts, w, var, k + 1);
    } else {
        assert(parts.take(k) =~= parts);
    }
}

proof fn lemma_loop_failed(body: BytesTerm, w: World, k: nat, n: nat)
    requires
        k <= n,
        loop_value(body, w, k) is Err,
    ensures
        loop_value(body, w, n) == loop_value(body, w, k),
        loop_reads(body, w, n) == loop_reads(body, w, k),
    decreases n,
{
    if k < n {
        lemma_loop_failed(body, w, k, (n - 1) as nat);
    }
}

fn hex_encode(b: &[u8]) -> (r: Vec<u8>)
    ensures
        r@ == hex_bytes(b@),
{
    let mut out: Vec<u8> = Vec::new();
    for i in 0..b.len()
        invariant
            out@ == hex_bytes(b@.take(i as int)),
    {
        let hi: u8 = b[i] / 16;
        let lo: u8 = b[i] % 16;
        out.push(if hi < 10 { 48 + hi } else { 87 + hi });
        out.push(if lo < 10 { 48 + lo } else { 87 + lo });
        assert(b@.take(i + 1).drop_last() =~= b@.take(i as int));
    }
    assert(b@.take(b@.len() as int) =~= b@);
    out
}

/// The decimal digits of `n`, as ASCII.
pub fn decimal_encode(n: u128) -> (r: Vec<u8>)
    ensures
        r@ == decimal_ascii(n as int),
    decreases n,
{
    let d: u8 = (n % 10) as u8;
    if n < 10 {
        let mut out: Vec<u8> = Vec::new();
        out.push(48 + d);
        assert(out@ =~= decimal_ascii(n as int));
        out
    } else {
        let mut out = decimal_encode(n / 10);
        out.push(48 + d);
        out
    }
}

/// The value of a byte-string expression.
pub fn eval_bytes<E: PlanEnv>(expr: &BytesExpr, env: &mut E, var: Option<u128>) -> (r: Result<Vec<u8>, PlanError>)
    ensures
        match r {
            Ok(b) => bytes_value(expr.term(), old(env).world(), var) == Ok::<Seq<u8>, PlanError>(b@),
            Err(x) => bytes_value(expr.term(), old(env).world(), var) == Err::<Seq<u8>, PlanError>(x),
        },
        final(env).world() == old(env).world(),
        final(env).asked() == old(env).asked() + bytes_reads(expr.term(), old(env).world(), var),
    decreases expr,
{
    let ghost w = env.world();
    match expr {
        BytesExpr::Const(b) => Ok(copy_bytes(b.as_slice())),
        BytesExpr::Storage(k) => match eval_bytes(k, env, var) {
            Ok(key) => Ok(env.storage(key.as_slice())),
            Err(x) => Err(x),
        },
        BytesExpr::Calldata { start, len } => {
            let all = flatten_words(env.words());
            let from: usize = *start as usize;
            if from > all.len() {
                return Err(PlanError::CalldataRange { start: *start });
            }
            let end: usize = match len {
                Some(len) => {
                    let len: usize = *len as usize;
                    if len < all.len() - from { from + len } else { all.len() }
                }
                None => all.len(),
            };
            Ok(cut(all.as_slice(), from, end))
        }
        BytesExpr::Concat(parts) => {
            let ghost ts = term::bytes_terms(parts@);
            let mut out: Vec<u8> = Vec::new();
            let n = parts.len();
            for i in 0..n
                invariant
                    n == parts@.len(),
                    ts == term::bytes_terms(parts@),
                    *expr == BytesExpr::Concat(*parts),
                    env.world() == w,
                    w == old(env).world(),
                    concat_value(ts.take(i as int), w, var) == Ok::<Seq<u8>, PlanError>(out@),
                    env.asked() == old(env).asked() + concat_reads(ts.take(i as int), w, var),
            {
                assert(ts.take(i + 1).drop_last() =~= ts.take(i as int));
                assert(ts.take(i + 1).last() == parts@[i as int].term());
                match eval_bytes(&parts[i], env, var) {
                    Ok(mut b) => {
                        out.append(&mut b);
                    }
                    Err(x) => {
                        proof {
                            lemma_concat_failed(ts, w, var, i + 1);
                        }
                        return Err(x);
                    }
                }
            }
            assert(ts.take(n as int) =~= ts);
            Ok(out)
        }
        BytesExpr::Slice { of, start, len } => {
            let b = match eval_bytes(of, env, var) {
                Ok(b) => b,
                Err(x) => return Err(x),
            };
            let start: usize = match eval_num(start, env, var) {
                Ok(n) => n as usize,
                Err(x) => return Err(x),
            };
            let len: usize = match eval_num(len, env, var) {
                Ok(n) => n as usize,
                Err(x) => return Err(x),
            };
            if start > b.len() || len > b.len() - start {
                return Err(PlanError::SliceRange { start, len, total: b.len() });
            }
            Ok(cut(b.as_slice(), start, start + len))
        }
        BytesExpr::Le { of, width } => match eval_num(of, env, var) {
            Ok(n) => if *width > 16 {
                Err(PlanError::Width(*width))
            } else {
                Ok(encode_le(n, *width as usize))
            },
            Err(x) => Err(x),
        },
        BytesExpr::If { cond, if_true, if_false } => match eval_bool(cond, env, var) {
            Ok(v) => if v {
                eval_bytes(if_true, env, var)
            } else {
                eval_bytes(if_false, env, var)
            },
            Err(x) => Err(x),
        },
        BytesExpr::Loop { count, body } => {
            let n: u128 = match eval_num(count, env, var) {
                Ok(n) => n,
                Err(x) => return Err(x),
            };
            if n > LOOP_LIMIT {
                return Err(PlanError::LoopCount(n));
            }
            let mut out: Vec<u8> = Vec::new();
            for i in 0..n
                invariant
                    env.world() == w,
                    w == old(env).world(),
                    *expr == (BytesExpr::Loop { count: *count, body: *body }),
                    num_value(count.term(), w, var) == Ok::<u128, PlanError>(n),
                    n <= LOOP_LIMIT,
                    loop_value(body.term(), w, i as nat) == Ok::<Seq<u8>, PlanError>(out@),
                    env.asked() == old(env).asked() + num_reads(count.term(), w, var) + loop_reads(body.term(), w, i as nat),
            {
                match eval_bytes(body, env, Some(i)) {
                    Ok(mut b) => {
                        out.append(&mut b);
                    }
                    Err(x) => {
                        proof {
                            lemma_loop_failed(body.term(), w, (i + 1) as nat, n as nat);
                        }
                        return Err(x);
                    }
                }
            }
            Ok(out)
        }
        BytesExpr::Hex(inner) => match eval_bytes(inner, env, var) {
            Ok(b) => Ok(hex_encode(b.as_slice())),
            Err(x) => Err(x),
        },
        BytesExpr::Decimal(inner) => match eval_num(inner, env, var) {
            Ok(n) => Ok(decimal_encode(n)),
            Err(x) => Err(x),
        },
    }
}

/// The value of a number expression.
pub fn eval_num<E: PlanEnv>(expr: &NumExpr, env: &mut E, var: Option<u128>) -> (r: Result<u128, PlanError>)
    ensures
        r == num_value(expr.term(), old(env).world(), var),
        final(env).world() == old(env).world(),
        final(env).asked() == old(env).asked() + num_reads(expr.term(), old(env).world(), var),
    decreases expr,
{
    match expr {
        NumExpr::Const(n) => Ok(*n),
        NumExpr::Word(i) => {
            let words = env.words();
            let at: usize = *i as usize;
            if at < words.len() {
                Ok(words[at])
            } else {
                Err(PlanError::MissingWord(*i))
            }
        }
        NumExpr::ULe(b) => match eval_bytes(b, env, var) {
            Ok(b) => Ok(decode_le(b.as_slice())),
            Err(x) => Err(x),
        },
        NumExpr::Len(b) => match eval_bytes(b, env, var) {
            Ok(b) => Ok(b.len() as u128),
            Err(x) => Err(x),
        },
        NumExpr::Height => Ok(env.height() as u128),
        NumExpr::Var => match var {
            Some(n) => Ok(n),
            None => Err(PlanError::NoLoop),
        },
        NumExpr::Add(a, b) => match eval_num(a, env, var) {
            Err(x) => Err(x),
            Ok(n) => match eval_num(b, env, var) {
                Err(x) => Err(x),
                Ok(m) => Ok(n.wrapping_add(m)),
            },
        },
        NumExpr::Sub(a, b) => match eval_num(a, env, var) {
            Err(x) => Err(x),
            Ok(n) => match eval_num(b, env, var) {
                Err(x) => Err(x),
                Ok(m) => Ok(n.wrapping_sub(m)),
            },
        },
        NumExpr::Mul(a, b) => match eval_num(a, env, var) {
            Err(x) => Err(x),
            Ok(n) => match eval_num(b, env, var) {
                Err(x) => Err(x),
                Ok(m) => Ok(n.wrapping_mul(m)),
            },
        },
        NumExpr::Div(a, b) => match eval_num(b, env, var) {
            Err(x) => Err(x),
            Ok(d) => if d == 0 {
                Err(PlanError::DivisionByZero)
            } else {
                match eval_num(a, env, var) {
                    Err(x) => Err(x),
                    Ok(n) => Ok(n / d),
                }
            },
        },
        NumExpr::Mod(a, b) => match eval_num(b, env, var) {
            Err(x) => Err(x),
            Ok(d) => if d == 0 {
                Err(PlanError::ModuloByZero)
            } else {
                match eval_num(a, env, var) {
                    Err(x) => Err(x),
                    Ok(n) => Ok(n % d),
                }
            },
        },
        NumExpr::Shr(a, b) => match eval_num(b, env, var) {
            Err(x) => Err(x),
            Ok(s) => match eval_num(a, env, var) {
                Err(x) => Err(x),
                Ok(n) => Ok(if s >= 128 { 0 } else { n >> s }),
            },
        },
        NumExpr::Shl(a, b) => match eval_num(b, env, var) {
            Err(x) => Err(x),
            Ok(s) => match eval_num(a, env, var) {
                Err(x) => Err(x),
                Ok(n) => Ok(if s >= 128 { 0 } else { n << s }),
            },
        },
        NumExpr::And(a, b) => match eval_num(a, env, var) {
            Err(x) => Err(x),
            Ok(n) => match eval_num(b, env, var) {
                Err(x) => Err(x),
                Ok(m) => Ok(n & m),
            },
        },
        NumExpr::Or(a, b) => match eval_num(a, env, var) {
            Err(x) => Err(x),
            Ok(n) => match eval_num(b, env, var) {
                Err(x) => Err(x),
                Ok(m) => Ok(n | m),
            },
        },
        NumExpr::Xor(a, b) => match eval_num(a, env, var) {
            Err(x) => Err(x),
            Ok(n) => match eval_num(b, env, var) {
                Err(x) => Err(x),
                Ok(m) => Ok(n ^ m),
            },
        },
        NumExpr::If { cond, if_true, if_false } => match eval_bool(cond, env, var) {
            Ok(v) => if v {
                eval_num(if_true, env, var)
            } else {
                eval_num(if_false, env, var)
            },
            Err(x) => Err(x),
        },
    }
}

fn eval_list<E: PlanEnv>(parts: &Vec<BoolExpr>, unit: bool, env: &mut E, var: Option<u128>) -> (r: Result<bool, PlanError>)
    ensures
        r == list_value(term::bool_terms(parts@), unit, old(env).world(), var),
        final(env).world() == old(env).world(),
        final(env).asked() == old(env).asked() + list_reads(term::bool_terms(parts@), unit, old(env).world(), var),
    decreases parts,
{
    let ghost w = env.world();
    let ghost ts = term::bool_terms(parts@);
    let n = parts.len();
    for i in 0..n
        invariant
            n == parts@.len(),
            ts == term::bool_terms(parts@),
            env.world() == w,
            w == old(env).world(),
            list_value(ts.take(i as int), unit, w, var) == Ok::<bool, PlanError>(unit),
            env.asked() == old(env).asked() + list_reads(ts.take(i as int), unit, w, var),
    {
        assert(ts.take(i + 1).drop_last() =~= ts.take(i as int));
        assert(ts.take(i + 1).last() == parts@[i as int].term());
        let v = eval_bool(&parts[i], env, var);
        match v {
            Ok(v) => if v != unit {
                proof {
                    lemma_list_decided(ts, unit, w, var, i + 1);
                }
                return Ok(v);
            },
            Err(x) => {
                proof {
                    lemma_list_decided(ts, unit, w, var, i + 1);
                }
                return Err(x);
            }
        }
    }
    assert(ts.take(n as int) =~= ts);
    Ok(unit)
}

/// The value of a truth-valued expression.
pub fn eval_bool<E: PlanEnv>(expr: &BoolExpr, env: &mut E, var: Option<u128>) -> (r: Result<bool, PlanError>)
    ensures
        r == bool_value(expr.term(), old(env).world(), var),
        final(env).world() == old(env).world(),
        final(env).asked() == old(env).asked() + bool_reads(expr.term(), old(env).world(), var),
    decreases expr,
{
    match expr {
        BoolExpr::Eq(a, b) => match eval_num(a, env, var) {
            Err(x) => Err(x),
            Ok(n) => match eval_num(b, env, var) {
                Err(x) => Err(x),
                Ok(m) => Ok(n == m),
            },
        },
        BoolExpr::Ne(a, b) => match eval_num(a, env, var) {
            Err(x) => Err(x),
            Ok(n) => match eval_num(b, env, var) {
                Err(x) => Err(x),
                Ok(m) => Ok(n != m),
            },
        },
        BoolExpr::Lt(a, b) => match eval_num(a, env, var) {
            Err(x) => Err(x),
            Ok(n) => match eval_num(b, env, var) {
                Err(x) => Err(x),
                Ok(m) => Ok(n < m),
            },
        },
        BoolExpr::Lte(a, b) => match eval_num(a, env, var) {
            Err(x) => Err(x),
            Ok(n) => match eval_num(b, env, var) {
                Err(x) => Err(x),
                Ok(m) => Ok(n <= m),
            },
        },
        BoolExpr::Gt(a, b) => match eval_num(a, env, var) {
            Err(x) => Err(x),
            Ok(n) => match eval_num(b, env, var) {
                Err(x) => Err(x),
                Ok(m) => Ok(n > m),
            },
        },
        BoolExpr::Gte(a, b) => match eval_num(a, env, var) {
            Err(x) => Err(x),
            Ok(n) => match eval_num(b, env, var) {
                Err(x) => Err(x),
                Ok(m) => Ok(n >= m),
            },
        },
        BoolExpr::BytesEq(a, b) => match eval_bytes(a, env, var) {
            Err(x) => Err(x),
            Ok(n) => match eval_bytes(b, env, var) {
                Err(x) => Err(x),
                Ok(m) => Ok(same_bytes(n.as_slice(), m.as_slice())),
            },
        },
        BoolExpr::And(parts) => eval_list(parts, true, env, var),
        BoolExpr::Or(parts) => eval_list(parts, false, env, var),
        BoolExpr::Not(inner) => match eval_bool(inner, env, var) {
            Ok(v) => Ok(!v),
            Err(x) => Err(x),
        },
    }
}

/// Evaluate a plan into the method's `CallResponse.data` bytes.
pub fn eval_plan<E: PlanEnv>(plan: &Plan, env: &mut E) -> (r: Result<Vec<u8>, PlanError>)
    ensures
        match r {
            Ok(b) => bytes_value(plan.expr.term(), old(env).world(), None) == Ok::<Seq<u8>, PlanError>(b@),
            Err(x) => bytes_value(plan.expr.term(), old(env).world(), None) == Err::<Seq<u8>, PlanError>(x),
        },
        final(env).world() == old(env).world(),
        final(env).asked() == old(env).asked() + bytes_reads(plan.expr.term(), old(env).world(), None),
{
    eval_bytes(&plan.expr, env, None)
}

} // verus!
