//! Plan synthesis by differential concolic probing.
//!
//! We treat a view method as an unknown pure function of (storage, height,
//! calldata) and recover it empirically:
//!
//!   1. KEY DISCOVERY: run against an empty oracle to see which keys the
//!      method reads, and whether the key set depends on calldata (probe with
//!      several random calldata vectors). Static keys: the key literals are
//!      constants; calldata-dependent keys: the key is a template with a
//!      calldata slice spliced in, whose layout we recover by diffing.
//!
//!   2. VALUE FITTING: with the key set known, vary the stored values (and
//!      height) across trials and fit the response as an expression over
//!      `u(storage(k))`, `height`, and calldata words. We try, cheapest first:
//!      identity passthrough, fixed-width integer projections, and affine /
//!      ratio combinations of the numeric inputs.
//!
//!   3. VERIFICATION lives in `verify.rs`: a candidate is only kept if it
//!      matches the wasm on many fresh randomized oracles.
//!
//! Anything not fit by the templates is simply left without a plan: the ABI
//! omits `plan` and the consumer falls back to simulate. Soundness comes from
//! step 3, so the template library can grow freely.
use vstd::prelude::*;
use crate::analysis::fit;
use crate::analysis::guest;
use crate::analysis::host;
use crate::analysis::host::{Oracle, OracleModel, Outcome, ProbeError, ProbeFault, Prober, ProberModel, RunModel, RunResult};
use crate::analysis::verify;
use crate::analysis::verify::ValueDist;
use crate::bytes;
use crate::bytes::{copy_bytes, cut, encode_le, find_subslice, flatten_words, same_bytes, ByteMap};
use crate::plan::term;
use crate::plan::{BytesExpr, BytesTerm, NumExpr, NumTerm};
use crate::text;
use crate::text::{copy_text, push_decimal};

verus! {

broadcast use term::group_list_terms;

/* ─────────────── random numbers ─────────────── */

/// The bits that a generator state is scrambled to.
pub open spec fn mix(s: u64) -> u64 {
    let a = (s ^ (s >> 30)).wrapping_mul(0xBF58476D1CE4E5B9);
    let b = (a ^ (a >> 27)).wrapping_mul(0x94D049BB133111EB);
    b ^ (b >> 31)
}

/// The next state, and the number drawn.
pub open spec fn draw64(s: u64) -> (u64, u64) {
    let t = s.wrapping_add(0x9E3779B97F4A7C15);
    (t, mix(t))
}

/// The next state, and the number drawn: the first draw is the high half.
pub open spec fn draw128(s: u64) -> (u64, u128) {
    let (t, hi) = draw64(s);
    let (u, lo) = draw64(t);
    (u, ((hi as u128) << 64) | lo as u128)
}

/// The next state, and the storage integer drawn.
pub open spec fn draw_value(s: u64) -> (u64, u128) {
    let (t, pick) = draw64(s);
    if pick % 4 == 0 {
        let (u, n) = draw64(t);
        (u, (n % 1000) as u128)
    } else if pick % 4 == 1 {
        let (u, n) = draw64(t);
        (u, (n % 1_000_000_000) as u128)
    } else if pick % 4 == 2 {
        let (u, n) = draw64(t);
        (u, n as u128)
    } else {
        draw128(t)
    }
}

/// The next state, and `n` storage integers drawn.
pub open spec fn draw_args(s: u64, n: nat) -> (u64, Seq<u128>)
    decreases n,
{
    if n == 0 {
        (s, Seq::empty())
    } else {
        let (t, args) = draw_args(s, (n - 1) as nat);
        let (u, v) = draw_value(t);
        (u, args.push(v))
    }
}

/// Deterministic PRNG (SplitMix64): reproducible.
pub struct Rng(u64);

impl Rng {
    /// The state, from which all later draws follow.
    pub closed spec fn state(self) -> u64 {
        self.0
    }

    pub fn new(seed: u64) -> (r: Self)
        ensures
            r.state() == seed,
    {
        Rng(seed)
    }

    pub fn next_u64(&mut self) -> (r: u64)
        ensures
            (final(self).state(), r) == draw64(old(self).state()),
    {
        self.0 = self.0.wrapping_add(0x9E3779B97F4A7C15);
        let mut z: u64 = self.0;
        z = (z ^ (z >> 30)).wrapping_mul(0xBF58476D1CE4E5B9);
        z = (z ^ (z >> 27)).wrapping_mul(0x94D049BB133111EB);
        z ^ (z >> 31)
    }

    pub fn next_u128(&mut self) -> (r: u128)
        ensures
            (final(self).state(), r) == draw128(old(self).state()),
    {
        let hi: u64 = self.next_u64();
        let lo: u64 = self.next_u64();
        ((hi as u128) << 64) | lo as u128
    }

    /// A "realistic" storage integer: mostly small, occasionally large.
    pub fn value_u128(&mut self) -> (r: u128)
        ensures
            (final(self).state(), r) == draw_value(old(self).state()),
    {
        let pick: u64 = self.next_u64() % 4;
        if pick == 0 {
            (self.next_u64() % 1000) as u128
        } else if pick == 1 {
            (self.next_u64() % 1_000_000_000) as u128
        } else if pick == 2 {
            self.next_u64() as u128
        } else {
            self.next_u128()
        }
    }
}

/// Draws `n` storage integers.
pub(crate) fn rand_args(rng: &mut Rng, n: usize) -> (r: Vec<u128>)
    ensures
        (final(rng).state(), r@) == draw_args(old(rng).state(), n as nat),
{
    let ghost s = rng.state();
    let mut out: Vec<u128> = Vec::new();
    for i in 0..n
        invariant
            (rng.state(), out@) == draw_args(s, i as nat),
    {
        let v: u128 = rng.value_u128();
        out.push(v);
    }
    out
}

/* ─────────────── keys ─────────────── */

/// A storage key the method reads: either a fixed byte string, or a template
/// with one calldata-derived byte run spliced in.
#[derive(Debug, Clone, PartialEq, Eq)]
pub enum KeyShape {
    Const(Vec<u8>),
    Templated {
        prefix: Vec<u8>,
        suffix: Vec<u8>,
        /// Byte range of flattened calldata spliced between prefix and suffix.
        cd_start: u32,
        cd_len: u32,
    },
}

/// What a [`KeyShape`] is.
pub ghost enum KeyTemplate {
    Const(Seq<u8>),
    Templated { prefix: Seq<u8>, suffix: Seq<u8>, cd_start: u32, cd_len: u32 },
}

/// The key that a template gives with calldata, if there is enough of it.
pub open spec fn template_key(t: KeyTemplate, calldata: Seq<u8>) -> Option<Seq<u8>> {
    match t {
        KeyTemplate::Const(b) => Some(b),
        KeyTemplate::Templated { prefix, suffix, cd_start, cd_len } => if cd_start + cd_len > calldata.len() {
            None
        } else {
            Some(prefix + calldata.subrange(cd_start as int, cd_start + cd_len) + suffix)
        },
    }
}

/// A constant part, if it holds anything.
pub open spec fn literal_part(b: Seq<u8>) -> Seq<BytesTerm> {
    if b.len() == 0 {
        Seq::empty()
    } else {
        seq![BytesTerm::Const(b)]
    }
}

/// The expression of a template.
pub open spec fn template_term(t: KeyTemplate) -> BytesTerm {
    match t {
        KeyTemplate::Const(b) => BytesTerm::Const(b),
        KeyTemplate::Templated { prefix, suffix, cd_start, cd_len } => BytesTerm::Concat(
            literal_part(prefix) + seq![BytesTerm::Calldata { start: cd_start, len: Some(cd_len) }] + literal_part(suffix),
        ),
    }
}

/// Appends a constant part, if it holds anything.
pub(crate) fn push_literal(parts: &mut Vec<BytesExpr>, b: &Vec<u8>)
    ensures
        term::bytes_terms(final(parts)@) == term::bytes_terms(old(parts)@) + literal_part(b@),
{
    let ghost before = term::bytes_terms(parts@);
    if b.len() > 0 {
        parts.push(BytesExpr::Const(copy_bytes(b.as_slice())));
        assert(parts@.last().term() == BytesTerm::Const(b@));
    }
    assert(term::bytes_terms(parts@) =~= before + literal_part(b@));
}

impl KeyShape {
    pub open spec fn template(self) -> KeyTemplate {
        match self {
            KeyShape::Const(b) => KeyTemplate::Const(b@),
            KeyShape::Templated { prefix, suffix, cd_start, cd_len } => KeyTemplate::Templated {
                prefix: prefix@,
                suffix: suffix@,
                cd_start,
                cd_len,
            },
        }
    }

    /// The key as an expression over the calldata.
    pub fn key_expr(&self) -> (r: BytesExpr)
        ensures
            r.term() == template_term(self.template()),
    {
        match self {
            KeyShape::Const(b) => BytesExpr::Const(copy_bytes(b.as_slice())),
            KeyShape::Templated { prefix, suffix, cd_start, cd_len } => {
                let mut parts: Vec<BytesExpr> = Vec::new();
                assert(term::bytes_terms(parts@) =~= Seq::empty());
                push_literal(&mut parts, prefix);
                let ghost before = term::bytes_terms(parts@);
                parts.push(BytesExpr::Calldata { start: *cd_start, len: Some(*cd_len) });
                assert(parts@.last().term() == BytesTerm::Calldata { start: *cd_start, len: Some(*cd_len) });
                assert(term::bytes_terms(parts@) =~= before.push(parts@.last().term()));
                push_literal(&mut parts, suffix);
                assert(term::bytes_terms(parts@) =~= template_term(self.template())->Concat_0);
                BytesExpr::Concat(parts)
            }
        }
    }
}

pub open spec fn templates(keys: Seq<KeyShape>) -> Seq<KeyTemplate> {
    Seq::new(keys.len(), |i: int| keys[i].template())
}

/// Result of key discovery for one method.
pub struct KeyModel {
    pub keys: Vec<KeyShape>,
    pub arg_count: usize,
}

/// What a [`KeyModel`] is.
pub ghost struct KeySet {
    pub keys: Seq<KeyTemplate>,
    pub arg_count: nat,
}

/* ─────────────── templates ─────────────── */

/// A run and the arguments it was given.
pub ghost struct Observed {
    pub args: Seq<u128>,
    pub run: RunModel,
}

pub open spec fn observed(runs: Seq<(Vec<u128>, RunResult)>) -> Seq<Observed> {
    Seq::new(runs.len(), |i: int| Observed { args: runs[i].0@, run: runs[i].1.model() })
}

/// Whether all runs read, at a slot, keys that agree with the first run's in byte `i`.
pub open spec fn agree_at(runs: Seq<Observed>, slot: int, i: int) -> bool {
    forall|k: int| 0 <= k < runs.len() ==> (#[trigger] runs[k]).run.keys[slot][i] == runs[0].run.keys[slot][i]
}

/// The length of the common prefix of the keys at a slot, which agree up to `from`.
pub open spec fn common_prefix(runs: Seq<Observed>, slot: int, from: nat) -> nat
    decreases runs[0].run.keys[slot].len() - from,
{
    if from < runs[0].run.keys[slot].len() && agree_at(runs, slot, from as int) {
        common_prefix(runs, slot, from + 1)
    } else {
        from
    }
}

/// The length of the common suffix of the keys at a slot, at most `limit`, which
/// agree in the last `from` bytes.
pub open spec fn common_suffix(runs: Seq<Observed>, slot: int, limit: nat, from: nat) -> nat
    decreases limit - from,
{
    if from < limit && agree_at(runs, slot, runs[0].run.keys[slot].len() - 1 - from) {
        common_suffix(runs, slot, limit, from + 1)
    } else {
        from
    }
}

/// Whether the first run's key with another run's calldata spliced in is that run's
/// key, in every run.
pub open spec fn rebuilds(runs: Seq<Observed>, slot: int, pre: int, len: int, start: int) -> bool {
    let key0 = runs[0].run.keys[slot];
    forall|k: int| 0 <= k < runs.len() ==> {
        let cd = bytes::words_bytes((#[trigger] runs[k]).args);
        &&& start + len <= cd.len()
        &&& key0.take(pre) + cd.subrange(start, start + len) + key0.skip(pre + len) == runs[k].run.keys[slot]
    }
}

/// The template of a slot whose keys differ: what the keys have in common, and
/// between that the run of the first calldata that stands in the first key.
pub open spec fn recovered_template(runs: Seq<Observed>, slot: int) -> Option<KeyTemplate> {
    let key0 = runs[0].run.keys[slot];
    if exists|k: int| 0 <= k < runs.len() && (#[trigger] runs[k]).run.keys[slot].len() != key0.len() {
        None
    } else {
        let pre = common_prefix(runs, slot, 0) as int;
        let suf = common_suffix(runs, slot, (key0.len() - pre) as nat, 0) as int;
        let len = key0.len() - pre - suf;
        if len == 0 {
            None
        } else {
            match bytes::find_first(bytes::words_bytes(runs[0].args), key0.subrange(pre, pre + len)) {
                None => None,
                Some(start) => if rebuilds(runs, slot, pre, len, start) {
                    Some(KeyTemplate::Templated {
                        prefix: key0.take(pre),
                        suffix: key0.skip(pre + len),
                        cd_start: start as u32,
                        cd_len: len as u32,
                    })
                } else {
                    None
                },
            }
        }
    }
}

fn agrees_at(runs: &Vec<(Vec<u128>, RunResult)>, slot: usize, i: usize) -> (r: bool)
    requires
        runs@.len() > 0,
        forall|k: int| 0 <= k < runs@.len() ==> slot < (#[trigger] runs@[k]).1.keys@.len(),
        forall|k: int| 0 <= k < runs@.len() ==> i < (#[trigger] runs@[k]).1.keys@[slot as int]@.len(),
    ensures
        r == agree_at(observed(runs@), slot as int, i as int),
{
    let ghost obs = observed(runs@);
    let n: usize = runs.len();
    for k in 0..n
        invariant
            n == runs@.len(),
            n > 0,
            obs == observed(runs@),
            forall|k: int| 0 <= k < runs@.len() ==> slot < (#[trigger] runs@[k]).1.keys@.len(),
            forall|k: int| 0 <= k < runs@.len() ==> i < (#[trigger] runs@[k]).1.keys@[slot as int]@.len(),
            forall|j: int| 0 <= j < k ==> (#[trigger] obs[j]).run.keys[slot as int][i as int] == obs[0].run.keys[slot as int][i as int],
    {
        assert(obs[k as int].run.keys[slot as int] == runs@[k as int].1.keys@[slot as int]@);
        assert(obs[0].run.keys[slot as int] == runs@[0].1.keys@[slot as int]@);
        if runs[k].1.keys[slot][i] != runs[0].1.keys[slot][i] {
            return false;
        }
    }
    true
}

proof fn lemma_common_prefix_bound(runs: Seq<Observed>, slot: int, from: nat)
    requires
        from <= runs[0].run.keys[slot].len(),
    ensures
        from <= common_prefix(runs, slot, from) <= runs[0].run.keys[slot].len(),
    decreases runs[0].run.keys[slot].len() - from,
{
    if from < runs[0].run.keys[slot].len() && agree_at(runs, slot, from as int) {
        lemma_common_prefix_bound(runs, slot, from + 1);
    }
}

/// Recover a templated key by locating the calldata bytes inside it. The key
/// equals prefix ++ (some contiguous run of the flattened calldata) ++ suffix.
pub fn recover_template(runs: &Vec<(Vec<u128>, RunResult)>, slot: usize) -> (r: Option<KeyShape>)
    requires
        runs@.len() > 0,
        forall|k: int| 0 <= k < runs@.len() ==> slot < (#[trigger] runs@[k]).1.keys@.len(),
    ensures
        match r {
            Some(k) => recovered_template(observed(runs@), slot as int) == Some(k.template()),
            None => recovered_template(observed(runs@), slot as int) is None,
        },
{
    let ghost obs = observed(runs@);
    let n: usize = runs.len();
    let key0 = copy_bytes(runs[0].1.keys[slot].as_slice());
    assert(obs[0].run.keys[slot as int] == key0@);
    let klen: usize = key0.len();
    for k in 0..n
        invariant
            n == runs@.len(),
            n > 0,
            obs == observed(runs@),
            klen == key0@.len(),
            key0@ == obs[0].run.keys[slot as int],
            forall|k: int| 0 <= k < runs@.len() ==> slot < (#[trigger] runs@[k]).1.keys@.len(),
            forall|j: int| 0 <= j < k ==> (#[trigger] runs@[j]).1.keys@[slot as int]@.len() == klen,
    {
        assert(obs[k as int].run.keys[slot as int] == runs@[k as int].1.keys@[slot as int]@);
        if runs[k].1.keys[slot].len() != klen {
            // Variable-length insert: the template model has one length only.
            return None;
        }
    }
    assert forall|k: int| 0 <= k < obs.len() implies (#[trigger] obs[k]).run.keys[slot as int].len() == klen by {
        assert(obs[k].run.keys[slot as int] == runs@[k].1.keys@[slot as int]@);
    }

    // Common prefix/suffix across all observed keys for this slot bounds the
    // variable region.
    let mut pre: usize = 0;
    while pre < klen && agrees_at(runs, slot, pre)
        invariant
            n == runs@.len(),
            n > 0,
            obs == observed(runs@),
            klen == key0@.len(),
            key0@ == obs[0].run.keys[slot as int],
            forall|k: int| 0 <= k < runs@.len() ==> slot < (#[trigger] runs@[k]).1.keys@.len(),
            forall|k: int| 0 <= k < runs@.len() ==> (#[trigger] runs@[k]).1.keys@[slot as int]@.len() == klen,
            pre <= klen,
            common_prefix(obs, slot as int, 0) == common_prefix(obs, slot as int, pre as nat),
        decreases klen - pre,
    {
        pre = pre + 1;
    }
    assert(common_prefix(obs, slot as int, 0) == pre);
    let limit: usize = klen - pre;
    let mut suf: usize = 0;
    while suf < limit && agrees_at(runs, slot, klen - 1 - suf)
        invariant
            n == runs@.len(),
            n > 0,
            obs == observed(runs@),
            klen == key0@.len(),
            key0@ == obs[0].run.keys[slot as int],
            limit <= klen,
            forall|k: int| 0 <= k < runs@.len() ==> slot < (#[trigger] runs@[k]).1.keys@.len(),
            forall|k: int| 0 <= k < runs@.len() ==> (#[trigger] runs@[k]).1.keys@[slot as int]@.len() == klen,
            suf <= limit,
            common_suffix(obs, slot as int, limit as nat, 0) == common_suffix(obs, slot as int, limit as nat, suf as nat),
        decreases limit - suf,
    {
        suf = suf + 1;
    }
    assert(common_suffix(obs, slot as int, limit as nat, 0) == suf);
    let var_len: usize = klen - pre - suf;
    if var_len == 0 {
        return None;
    }

    // The variable run in key0 must appear contiguously in the calldata; find where.
    let cd0 = flatten_words(runs[0].0.as_slice());
    assert(obs[0].args == runs@[0].0@);
    let needle = cut(key0.as_slice(), pre, pre + var_len);
    let start: usize = match find_subslice(cd0.as_slice(), needle.as_slice()) {
        None => {
            return None;
        }
        Some(start) => start,
    };
    let ghost found = bytes::find_first(cd0@, needle@);
    assert(found == Some(start as int));
    let prefix = cut(key0.as_slice(), 0, pre);
    let suffix = cut(key0.as_slice(), pre + var_len, klen);
    assert(prefix@ =~= key0@.take(pre as int));
    assert(suffix@ =~= key0@.skip(pre + var_len));

    // Validate the recovered template reproduces every observed key.
    for k in 0..n
        invariant
            n == runs@.len(),
            n > 0,
            obs == observed(runs@),
            klen == key0@.len(),
            key0@ == obs[0].run.keys[slot as int],
            var_len <= klen,
            prefix@ == key0@.take(pre as int),
            suffix@ == key0@.skip(pre + var_len),
            forall|k: int| 0 <= k < runs@.len() ==> slot < (#[trigger] runs@[k]).1.keys@.len(),
            forall|j: int| 0 <= j < k ==> ({
                let cd = bytes::words_bytes((#[trigger] obs[j]).args);
                &&& start + var_len <= cd.len()
                &&& key0@.take(pre as int) + cd.subrange(start as int, start + var_len) + key0@.skip(pre + var_len)
                    == obs[j].run.keys[slot as int]
            }),
            recovered_template(obs, slot as int) == (if rebuilds(obs, slot as int, pre as int, var_len as int, start as int) {
                Some(KeyTemplate::Templated {
                    prefix: prefix@,
                    suffix: suffix@,
                    cd_start: start as u32,
                    cd_len: var_len as u32,
                })
            } else {
                None
            }),
    {
        let cd = flatten_words(runs[k].0.as_slice());
        assert(obs[k as int].args == runs@[k as int].0@);
        assert(obs[k as int].run.keys[slot as int] == runs@[k as int].1.keys@[slot as int]@);
        if var_len > cd.len() || start > cd.len() - var_len {
            return None;
        }
        let total: usize = cd.len();
        assert(start + var_len <= total);
        let mut rebuilt = copy_bytes(prefix.as_slice());
        let mut middle = cut(cd.as_slice(), start, start + var_len);
        rebuilt.append(&mut middle);
        let mut tail = copy_bytes(suffix.as_slice());
        rebuilt.append(&mut tail);
        if !same_bytes(rebuilt.as_slice(), runs[k].1.keys[slot].as_slice()) {
            return None;
        }
    }
    Some(KeyShape::Templated { prefix, suffix, cd_start: start as u32, cd_len: var_len as u32 })
}

/* ─────────────── discovery ─────────────── */

/// How far the baseline runs have come.
pub ghost enum Baseline {
    Failed(ProbeFault),
    Rejected,
    /// The generator's state, and the runs.
    Runs(u64, Seq<Observed>),
}

/// The first `k` runs against an empty storage, with random calldata of `n` words. A
/// disqualified run rejects the method.
pub open spec fn baseline(p: ProberModel, opcode: u128, n: nat, k: nat) -> Baseline
    decreases k,
{
    if k == 0 {
        Baseline::Runs(0xA1CAB1_0000u64 ^ (opcode as u64), Seq::empty())
    } else {
        match baseline(p, opcode, n, (k - 1) as nat) {
            Baseline::Runs(s, runs) => {
                let (t, args) = draw_args(s, n);
                match p.outcome(opcode, args, host::default_oracle()) {
                    Err(e) => Baseline::Failed(e),
                    Ok(run) => if run.outcome is Disqualified {
                        Baseline::Rejected
                    } else {
                        Baseline::Runs(t, runs.push(Observed { args, run }))
                    },
                }
            }
            other => other,
        }
    }
}

/// The keys of all runs, run after run.
pub open spec fn all_keys(runs: Seq<Observed>) -> Seq<Seq<u8>>
    decreases runs.len(),
{
    if runs.len() == 0 {
        Seq::empty()
    } else {
        all_keys(runs.drop_last()) + runs.last().run.keys
    }
}

/// A random 16-byte value for every key, drawn where the key comes first: the
/// generator's state, and the storage.
pub open spec fn filled(s: u64, keys: Seq<Seq<u8>>) -> (u64, Map<Seq<u8>, Seq<u8>>)
    decreases keys.len(),
{
    if keys.len() == 0 {
        (s, Map::empty())
    } else {
        let (t, m) = filled(s, keys.drop_last());
        if m.dom().contains(keys.last()) {
            (t, m)
        } else {
            let (u, v) = draw128(t);
            (u, m.insert(keys.last(), bytes::le_bytes(v as int, 16)))
        }
    }
}

/// Whether every run trapped.
pub open spec fn all_trap(runs: Seq<Observed>) -> bool {
    forall|k: int| 0 <= k < runs.len() ==> (#[trigger] runs[k]).run.outcome is Trap
}

/// Whether `k` runs against a storage read `count` keys each: the generator's state
/// if they do, and whether every one of them trapped.
pub open spec fn stable(p: ProberModel, opcode: u128, n: nat, o: OracleModel, count: nat, s: u64, k: nat) -> Result<Option<(u64, bool)>, ProbeFault>
    decreases k,
{
    if k == 0 {
        Ok(Some((s, true)))
    } else {
        match stable(p, opcode, n, o, count, s, (k - 1) as nat) {
            Ok(Some((s, trapped))) => {
                let (t, args) = draw_args(s, n);
                match p.outcome(opcode, args, o) {
                    Err(e) => Err(e),
                    Ok(run) => if run.outcome is Disqualified || run.keys.len() != count {
                        Ok(None)
                    } else {
                        Ok(Some((t, trapped && run.outcome is Trap)))
                    },
                }
            }
            other => other,
        }
    }
}

/// The shape of a slot: constant across calldata, or a template.
pub open spec fn slot_template(runs: Seq<Observed>, slot: int) -> Option<KeyTemplate> {
    if forall|k: int| 0 <= k < runs.len() ==> (#[trigger] runs[k]).run.keys[slot] == runs[0].run.keys[slot] {
        Some(KeyTemplate::Const(runs[0].run.keys[slot]))
    } else {
        recovered_template(runs, slot)
    }
}

/// The shapes of the first `n` slots.
pub open spec fn slot_templates(runs: Seq<Observed>, n: nat) -> Option<Seq<KeyTemplate>>
    decreases n,
{
    if n == 0 {
        Some(Seq::empty())
    } else {
        match (slot_templates(runs, (n - 1) as nat), slot_template(runs, n - 1)) {
            (Some(ts), Some(t)) => Some(ts.push(t)),
            _ => None,
        }
    }
}

/// The keys of a method, unless it trapped in every run of the discovery and answers in
/// none that fitting it would make.
pub open spec fn kept(p: ProberModel, opcode: u128, set: KeySet, trapped: bool) -> Option<KeySet> {
    if trapped && !fit::answers(p, opcode, set, ValueDist::Integer) && !fit::answers(p, opcode, set, ValueDist::Stringy) {
        None
    } else {
        Some(set)
    }
}

/// What key discovery comes to: an error of the prober, or the keys if the method
/// fits the model. A method that traps in every run, with the storage empty and filled,
/// and never answers where it is sampled, does not.
pub open spec fn discovered(p: ProberModel, opcode: u128, n: nat) -> Result<Option<KeySet>, ProbeFault> {
    match baseline(p, opcode, n, 6) {
        Baseline::Failed(e) => Err(e),
        Baseline::Rejected => Ok(None),
        Baseline::Runs(s, runs) => {
            let count = runs[0].run.keys.len();
            if count > 8 || exists|k: int| 0 <= k < runs.len() && (#[trigger] runs[k]).run.keys.len() != count {
                Ok(None)
            } else if count == 0 {
                Ok(kept(p, opcode, KeySet { keys: Seq::empty(), arg_count: n }, all_trap(runs)))
            } else {
                let (t, storage) = filled(s, all_keys(runs));
                match stable(p, opcode, n, OracleModel { storage, ..host::default_oracle() }, count, t, 4) {
                    Err(e) => Err(e),
                    Ok(None) => Ok(None),
                    Ok(Some((_, trapped))) => match slot_templates(runs, count) {
                        None => Ok(None),
                        Some(keys) => Ok(kept(p, opcode, KeySet { keys, arg_count: n }, trapped && all_trap(runs))),
                    },
                }
            }
        }
    }
}

/// Whether a method traps whatever it is called with, and whatever is stored.
pub open spec fn always_traps(p: ProberModel, opcode: u128) -> bool {
    forall|args: Seq<u128>, o: OracleModel| (#[trigger] p.outcome(opcode, args, o)) matches Ok(run) && run.outcome is Trap
}

/// A method that traps unconditionally gets no key model.
pub proof fn lemma_trapping(p: ProberModel, opcode: u128, n: nat)
    requires
        always_traps(p, opcode),
    ensures
        discovered(p, opcode, n) == Ok::<Option<KeySet>, ProbeFault>(None),
{
    lemma_baseline_traps(p, opcode, n, 6);
    if let Baseline::Runs(s, runs) = baseline(p, opcode, n, 6) {
        let count = runs[0].run.keys.len();
        let (t, storage) = filled(s, all_keys(runs));
        lemma_stable_traps(p, opcode, n, OracleModel { storage, ..host::default_oracle() }, count, t, 4);
        let set = KeySet {
            keys: if count == 0 {
                Seq::empty()
            } else {
                slot_templates(runs, count)->0
            },
            arg_count: n,
        };
        lemma_traps_unsampled(p, opcode, set, ValueDist::Integer, 400);
        lemma_traps_unsampled(p, opcode, set, ValueDist::Stringy, 400);
    }
}

/// To refuse a method because it traps loses no plan: where the keys found are dropped
/// for it, nothing would have fitted them, whatever the values drawn.
pub proof fn lemma_refusal_loses_nothing(p: ProberModel, opcode: u128, set: KeySet, trapped: bool, dist: ValueDist)
    requires
        kept(p, opcode, set, trapped) is None,
    ensures
        fit::fitted(set, fit::samples_of(p, opcode, set, dist)) is None,
{
    fit::lemma_silent_fits_nothing(p, opcode, set, dist);
}

proof fn lemma_traps_unsampled(p: ProberModel, opcode: u128, set: KeySet, dist: ValueDist, k: nat)
    requires
        always_traps(p, opcode),
    ensures
        fit::sampled(p, opcode, set, dist, 1, k).1.len() == 0,
    decreases k,
{
    if k > 0 {
        lemma_traps_unsampled(p, opcode, set, dist, (k - 1) as nat);
        let c = verify::draw_case(set, fit::sampled(p, opcode, set, dist, 1, (k - 1) as nat).0, dist);
        assert(p.outcome(opcode, c.args, c.oracle) is Ok);
    }
}

proof fn lemma_baseline_traps(p: ProberModel, opcode: u128, n: nat, k: nat)
    requires
        always_traps(p, opcode),
    ensures
        baseline(p, opcode, n, k) matches Baseline::Runs(_, runs) && all_trap(runs),
    decreases k,
{
    if k > 0 {
        lemma_baseline_traps(p, opcode, n, (k - 1) as nat);
        if let Baseline::Runs(s, _) = baseline(p, opcode, n, (k - 1) as nat) {
            assert(p.outcome(opcode, draw_args(s, n).1, host::default_oracle()) is Ok);
        }
    }
}

proof fn lemma_stable_traps(p: ProberModel, opcode: u128, n: nat, o: OracleModel, count: nat, s: u64, k: nat)
    requires
        always_traps(p, opcode),
    ensures
        stable(p, opcode, n, o, count, s, k) matches Ok(r) && (r matches Some((_, trapped)) ==> trapped),
    decreases k,
{
    if k > 0 {
        lemma_stable_traps(p, opcode, n, o, count, s, (k - 1) as nat);
        if let Ok(Some((t, _))) = stable(p, opcode, n, o, count, s, (k - 1) as nat) {
            assert(p.outcome(opcode, draw_args(t, n).1, o) is Ok);
        }
    }
}

proof fn lemma_baseline_stopped(p: ProberModel, opcode: u128, n: nat, k: nat, m: nat)
    requires
        k <= m,
        !(baseline(p, opcode, n, k) is Runs),
    ensures
        baseline(p, opcode, n, m) == baseline(p, opcode, n, k),
    decreases m,
{
    if k < m {
        lemma_baseline_stopped(p, opcode, n, k, (m - 1) as nat);
    }
}

proof fn lemma_stable_stopped(p: ProberModel, opcode: u128, n: nat, o: OracleModel, count: nat, s: u64, k: nat, m: nat)
    requires
        k <= m,
        !(stable(p, opcode, n, o, count, s, k) matches Ok(Some(_))),
    ensures
        stable(p, opcode, n, o, count, s, m) == stable(p, opcode, n, o, count, s, k),
    decreases m,
{
    if k < m {
        lemma_stable_stopped(p, opcode, n, o, count, s, k, (m - 1) as nat);
    }
}

proof fn lemma_slots_stopped(runs: Seq<Observed>, k: nat, n: nat)
    requires
        k <= n,
        slot_templates(runs, k) is None,
    ensures
        slot_templates(runs, n) is None,
    decreases n,
{
    if k < n {
        lemma_slots_stopped(runs, k, (n - 1) as nat);
    }
}

/// The baseline runs, the generator past them.
fn run_baseline(prober: &Prober, opcode: u128, arg_count: usize) -> (r: Result<Option<(Rng, Vec<(Vec<u128>, RunResult)>)>, ProbeError>)
    ensures
        match (r, baseline(prober.model(), opcode, arg_count as nat, 6)) {
            (Err(e), Baseline::Failed(x)) => e.model() == x,
            (Ok(None), Baseline::Rejected) => true,
            (Ok(Some((rng, runs))), Baseline::Runs(s, obs)) => rng.state() == s && observed(runs@) == obs && obs.len() == 6,
            _ => false,
        },
{
    let base = Oracle::default();
    let mut rng = Rng::new(0xA1CAB1_0000u64 ^ (opcode as u64));
    let mut runs: Vec<(Vec<u128>, RunResult)> = Vec::new();
    assert(observed(runs@) =~= Seq::empty());
    for k in 0..6usize
        invariant
            base.model() == host::default_oracle(),
            baseline(prober.model(), opcode, arg_count as nat, k as nat) == Baseline::Runs(rng.state(), observed(runs@)),
            runs@.len() == k,
    {
        proof {
            if !(baseline(prober.model(), opcode, arg_count as nat, (k + 1) as nat) is Runs) {
                lemma_baseline_stopped(prober.model(), opcode, arg_count as nat, (k + 1) as nat, 6);
            }
        }
        let ghost before = observed(runs@);
        let args = rand_args(&mut rng, arg_count);
        match prober.run(opcode, args.as_slice(), &base) {
            Err(e) => {
                return Err(e);
            }
            Ok(run) => {
                if let Outcome::Disqualified(_) = &run.outcome {
                    return Ok(None);
                }
                runs.push((args, run));
                assert(observed(runs@) =~= before.push(Observed { args: args@, run: run.model() }));
            }
        }
    }
    Ok(Some((rng, runs)))
}

fn gather_keys(runs: &Vec<(Vec<u128>, RunResult)>) -> (r: Vec<Vec<u8>>)
    ensures
        guest::key_list(r@) == all_keys(observed(runs@)),
{
    let mut out: Vec<Vec<u8>> = Vec::new();
    let ghost obs = observed(runs@);
    assert(guest::key_list(out@) =~= all_keys(obs.take(0)));
    let n: usize = runs.len();
    for k in 0..n
        invariant
            n == runs@.len(),
            obs == observed(runs@),
            guest::key_list(out@) == all_keys(obs.take(k as int)),
    {
        let ghost before = guest::key_list(out@);
        assert(obs.take(k + 1).drop_last() =~= obs.take(k as int));
        let m: usize = runs[k].1.keys.len();
        let ghost keys = guest::key_list(runs@[k as int].1.keys@);
        assert(before + keys.take(0) =~= before);
        for j in 0..m
            invariant
                k < runs@.len(),
                m == runs@[k as int].1.keys@.len(),
                keys == guest::key_list(runs@[k as int].1.keys@),
                guest::key_list(out@) == before + keys.take(j as int),
        {
            let ghost was = guest::key_list(out@);
            out.push(copy_bytes(runs[k].1.keys[j].as_slice()));
            assert(guest::key_list(out@) =~= was.push(keys[j as int]));
            assert(before + keys.take(j + 1) =~= (before + keys.take(j as int)).push(keys[j as int]));
        }
        assert(keys.take(m as int) =~= keys);
        assert(obs.take(k + 1).last().run.keys == keys);
    }
    assert(obs.take(n as int) =~= obs);
    out
}

fn fill_storage(rng: &mut Rng, keys: &Vec<Vec<u8>>) -> (r: ByteMap<Vec<u8>>)
    ensures
        (final(rng).state(), bytes::bytes_map(r.map())) == filled(old(rng).state(), guest::key_list(keys@)),
{
    let ghost s = rng.state();
    let ghost all = guest::key_list(keys@);
    let mut out: ByteMap<Vec<u8>> = ByteMap::new();
    assert(bytes::bytes_map(out.map()) =~= Map::empty());
    assert(all.take(0) =~= Seq::empty());
    let n: usize = keys.len();
    for i in 0..n
        invariant
            n == keys@.len(),
            all == guest::key_list(keys@),
            (rng.state(), bytes::bytes_map(out.map())) == filled(s, all.take(i as int)),
    {
        assert(all.take(i + 1).drop_last() =~= all.take(i as int));
        let ghost before = bytes::bytes_map(out.map());
        assert(all.take(i + 1).last() == keys@[i as int]@);
        if out.get(keys[i].as_slice()).is_none() {
            let v: u128 = rng.next_u128();
            out.insert(copy_bytes(keys[i].as_slice()), encode_le(v, 16));
            assert(bytes::bytes_map(out.map()) =~= before.insert(keys@[i as int]@, bytes::le_bytes(v as int, 16)));
        }
    }
    assert(all.take(n as int) =~= all);
    out
}

/// Whether every run trapped.
fn runs_trap(runs: &Vec<(Vec<u128>, RunResult)>) -> (r: bool)
    ensures
        r == all_trap(observed(runs@)),
{
    let ghost obs = observed(runs@);
    let n: usize = runs.len();
    for k in 0..n
        invariant
            n == runs@.len(),
            obs == observed(runs@),
            forall|j: int| 0 <= j < k ==> (#[trigger] obs[j]).run.outcome is Trap,
    {
        assert(obs[k as int].run == runs@[k as int].1.model());
        match &runs[k].1.outcome {
            Outcome::Trap(_) => {}
            _ => {
                return false;
            }
        }
    }
    true
}

/// Whether four more runs read `count` keys each, and then whether every one of them
/// trapped.
fn stays_stable(prober: &Prober, opcode: u128, arg_count: usize, oracle: &Oracle, count: usize, rng: &mut Rng) -> (r: Result<Option<bool>, ProbeError>)
    ensures
        match (r, stable(prober.model(), opcode, arg_count as nat, oracle.model(), count as nat, old(rng).state(), 4)) {
            (Err(e), Err(x)) => e.model() == x,
            (Ok(None), Ok(None)) => true,
            (Ok(Some(b)), Ok(Some((s, trapped)))) => b == trapped && final(rng).state() == s,
            _ => false,
        },
{
    let ghost s = rng.state();
    let mut trapped = true;
    for k in 0..4usize
        invariant
            s == old(rng).state(),
            stable(prober.model(), opcode, arg_count as nat, oracle.model(), count as nat, s, k as nat)
                == Ok::<Option<(u64, bool)>, ProbeFault>(Some((rng.state(), trapped))),
    {
        proof {
            if !(stable(prober.model(), opcode, arg_count as nat, oracle.model(), count as nat, s, (k + 1) as nat) matches Ok(Some(_))) {
                lemma_stable_stopped(prober.model(), opcode, arg_count as nat, oracle.model(), count as nat, s, (k + 1) as nat, 4);
            }
        }
        let args = rand_args(rng, arg_count);
        match prober.run(opcode, args.as_slice(), oracle) {
            Err(e) => {
                return Err(e);
            }
            Ok(run) => {
                match &run.outcome {
                    Outcome::Disqualified(_) => {
                        return Ok(None);
                    }
                    Outcome::Trap(_) => {}
                    Outcome::Success(_) => {
                        trapped = false;
                    }
                }
                if run.keys.len() != count {
                    return Ok(None);
                }
            }
        }
    }
    Ok(Some(trapped))
}

/// Classify a key slot: constant across calldata, or a template.
fn classify(runs: &Vec<(Vec<u128>, RunResult)>, slot: usize) -> (r: Option<KeyShape>)
    requires
        runs@.len() > 0,
        forall|k: int| 0 <= k < runs@.len() ==> slot < (#[trigger] runs@[k]).1.keys@.len(),
    ensures
        match r {
            Some(k) => slot_template(observed(runs@), slot as int) == Some(k.template()),
            None => slot_template(observed(runs@), slot as int) is None,
        },
{
    let ghost obs = observed(runs@);
    let n: usize = runs.len();
    let mut k: usize = 0;
    assert(obs[0].run.keys[slot as int] == runs@[0].1.keys@[slot as int]@);
    while k < n
        invariant
            n == runs@.len(),
            n > 0,
            obs == observed(runs@),
            k <= n,
            obs[0].run.keys[slot as int] == runs@[0].1.keys@[slot as int]@,
            forall|k: int| 0 <= k < runs@.len() ==> slot < (#[trigger] runs@[k]).1.keys@.len(),
            forall|j: int| 0 <= j < k ==> (#[trigger] obs[j]).run.keys[slot as int] == obs[0].run.keys[slot as int],
        decreases n - k,
    {
        assert(obs[k as int].run.keys[slot as int] == runs@[k as int].1.keys@[slot as int]@);
        if !same_bytes(runs[k].1.keys[slot].as_slice(), runs[0].1.keys[slot].as_slice()) {
            return recover_template(runs, slot);
        }
        k = k + 1;
    }
    Some(KeyShape::Const(copy_bytes(runs[0].1.keys[slot].as_slice())))
}

impl KeyModel {
    pub open spec fn set(self) -> KeySet {
        KeySet { keys: templates(self.keys@), arg_count: self.arg_count as nat }
    }
}

/// Drops the keys of a method that only ever traps.
fn keep_model(prober: &Prober, opcode: u128, model: KeyModel, trapped: bool) -> (r: Option<KeyModel>)
    ensures
        match (r, kept(prober.model(), opcode, model.set(), trapped)) {
            (None, None) => true,
            (Some(m), Some(s)) => m.set() == s,
            _ => false,
        },
{
    if trapped && !fit::ever_answers(prober, opcode, &model, ValueDist::Integer)
        && !fit::ever_answers(prober, opcode, &model, ValueDist::Stringy) {
        None
    } else {
        Some(model)
    }
}

/// Discover the storage keys a view reads and whether they depend on calldata.
/// Returns None if the method is disqualified, traps unconditionally, reads a number
/// of keys that varies with calldata or stored data (data-dependent key sets are out of
/// scope for the current templates), or reads too many keys.
pub fn discover_keys(prober: &Prober, opcode: u128, arg_count: usize) -> (r: Result<Option<KeyModel>, ProbeError>)
    ensures
        match (r, discovered(prober.model(), opcode, arg_count as nat)) {
            (Err(e), Err(x)) => e.model() == x,
            (Ok(None), Ok(None)) => true,
            (Ok(Some(m)), Ok(Some(s))) => m.set() == s,
            _ => false,
        },
{
    // Empty-storage baseline across several random calldata vectors.
    let (mut rng, runs) = match run_baseline(prober, opcode, arg_count) {
        Err(e) => {
            return Err(e);
        }
        Ok(None) => {
            return Ok(None);
        }
        Ok(Some(got)) => got,
    };
    let ghost obs = observed(runs@);
    let n: usize = runs.len();
    assert(n == obs.len());

    // Key set must be stable in count across calldata (data-dependent key
    // fan-out, e.g. iterating a stored list, is not modeled). Zero keys is
    // fine: the method may be a pure function of height/calldata.
    let count: usize = runs[0].1.keys.len();
    assert(obs[0].run.keys.len() == count);
    if count > 8 {
        return Ok(None);
    }
    for k in 0..n
        invariant
            n == runs@.len(),
            obs == observed(runs@),
            count == obs[0].run.keys.len(),
            count <= 8,
            baseline(prober.model(), opcode, arg_count as nat, 6) matches Baseline::Runs(_, o) && o == obs,
            forall|j: int| 0 <= j < k ==> (#[trigger] runs@[j]).1.keys@.len() == count,
    {
        assert(obs[k as int].run.keys.len() == runs@[k as int].1.keys@.len());
        if runs[k].1.keys.len() != count {
            return Ok(None);
        }
    }
    assert forall|k: int| 0 <= k < obs.len() implies (#[trigger] obs[k]).run.keys.len() == count by {
        assert(runs@[k].1.keys@.len() == count);
    }
    let trapping = runs_trap(&runs);
    if count == 0 {
        let model = KeyModel { keys: Vec::new(), arg_count };
        assert(model.set().keys =~= Seq::empty());
        return Ok(keep_model(prober, opcode, model, trapping));
    }

    // Confirm stability under stored values too: fill the baseline keys with
    // random data and re-check the count.
    let keys = gather_keys(&runs);
    let mut oracle = Oracle::default();
    oracle.storage = fill_storage(&mut rng, &keys);
    let trapped: bool = match stays_stable(prober, opcode, arg_count, &oracle, count, &mut rng) {
        Err(e) => {
            return Err(e);
        }
        Ok(None) => {
            return Ok(None);
        }
        Ok(Some(trapped)) => trapped && trapping,
    };

    let mut shapes: Vec<KeyShape> = Vec::new();
    assert(templates(shapes@) =~= Seq::empty());
    for slot in 0..count
        invariant
            obs == observed(runs@),
            runs@.len() > 0,
            forall|k: int| 0 <= k < runs@.len() ==> (#[trigger] runs@[k]).1.keys@.len() == count,
            slot_templates(obs, slot as nat) == Some(templates(shapes@)),
            discovered(prober.model(), opcode, arg_count as nat) == (match slot_templates(obs, count as nat) {
                None => Ok::<Option<KeySet>, ProbeFault>(None),
                Some(keys) => Ok(kept(prober.model(), opcode, KeySet { keys, arg_count: arg_count as nat }, trapped)),
            }),
    {
        let ghost before = templates(shapes@);
        match classify(&runs, slot) {
            None => {
                proof {
                    lemma_slots_stopped(obs, (slot + 1) as nat, count as nat);
                }
                return Ok(None);
            }
            Some(shape) => {
                shapes.push(shape);
                assert(templates(shapes@) =~= before.push(shape.template()));
            }
        }
    }
    Ok(keep_model(prober, opcode, KeyModel { keys: shapes, arg_count }, trapped))
}

/* ─────────────── features ─────────────── */

/// Numeric inputs a fitted expression may combine, with how to rebuild each as
/// a plan NumExpr.
pub struct Feature {
    pub name: String,
    pub expr: NumExpr,
}

/// What a [`Feature`] is.
pub ghost struct FeatureModel {
    pub name: Seq<char>,
    pub term: NumTerm,
}

impl Feature {
    pub open spec fn model(self) -> FeatureModel {
        FeatureModel { name: self.name@, term: self.expr.term() }
    }
}

impl Clone for Feature {
    fn clone(&self) -> (r: Self)
        ensures
            r.model() == self.model(),
    {
        Feature { name: copy_text(self.name.as_str()), expr: self.expr.copy() }
    }
}

pub open spec fn feature_models(f: Seq<Feature>) -> Seq<FeatureModel> {
    Seq::new(f.len(), |i: int| f[i].model())
}

/// What is stored at a key.
pub open spec fn stored_term(t: KeyTemplate) -> BytesTerm {
    BytesTerm::Storage(Box::new(template_term(t)))
}

/// The features of a key set: the number stored at each key, the calldata words, and
/// the height.
pub open spec fn feature_list(s: KeySet) -> Seq<FeatureModel> {
    Seq::new(s.keys.len(), |i: int| FeatureModel {
        name: "s"@ + text::decimal(i),
        term: NumTerm::ULe(Box::new(stored_term(s.keys[i]))),
    }) + Seq::new(s.arg_count, |i: int| FeatureModel { name: "w"@ + text::decimal(i), term: NumTerm::Word(i as u32) })
        + seq![FeatureModel { name: "h"@, term: NumTerm::Height }]
}

fn numbered(head: &str, i: usize) -> (r: String)
    ensures
        r@ == head@ + text::decimal(i as int),
{
    let mut out = String::from_str(head);
    push_decimal(&mut out, i as u128);
    out
}

/// What is stored at a key, as an expression.
pub(crate) fn stored_expr(key: &KeyShape) -> (r: BytesExpr)
    ensures
        r.term() == stored_term(key.template()),
{
    BytesExpr::Storage(Box::new(key.key_expr()))
}

impl KeyModel {
    /// The numeric features available to value-fitting: u(storage(key)) for
    /// each key, the calldata words, and height.
    pub fn features(&self) -> (r: Vec<Feature>)
        ensures
            feature_models(r@) == feature_list(self.set()),
    {
        let ghost all = feature_list(self.set());
        let mut out: Vec<Feature> = Vec::new();
        let n: usize = self.keys.len();
        for i in 0..n
            invariant
                n == self.keys@.len(),
                all == feature_list(self.set()),
                out@.len() == i,
                forall|j: int| 0 <= j < i ==> (#[trigger] out@[j]).model() == all[j],
        {
            let feature = Feature { name: numbered("s", i), expr: NumExpr::ULe(Box::new(stored_expr(&self.keys[i]))) };
            assert(self.set().keys[i as int] == self.keys@[i as int].template());
            assert(feature.model() == all[i as int]);
            out.push(feature);
        }
        for w in 0..self.arg_count
            invariant
                n == self.keys@.len(),
                all == feature_list(self.set()),
                out@.len() == n + w,
                forall|j: int| 0 <= j < n + w ==> (#[trigger] out@[j]).model() == all[j],
        {
            let feature = Feature { name: numbered("w", w), expr: NumExpr::Word(w as u32) };
            assert(feature.model() == all[n + w]);
            out.push(feature);
        }
        out.push(Feature { name: String::from_str("h"), expr: NumExpr::Height });
        assert(feature_models(out@) =~= all);
        out
    }

    /// The single-key passthrough expression (response == raw storage bytes).
    pub fn passthrough(&self) -> (r: Option<BytesExpr>)
        ensures
            match r {
                Some(e) => self.set().keys.len() == 1 && e.term() == stored_term(self.set().keys[0]),
                None => self.set().keys.len() != 1,
            },
    {
        if self.keys.len() == 1 {
            Some(stored_expr(&self.keys[0]))
        } else {
            None
        }
    }
}

/// A recovered template gives back every key that was observed at its slot, from the
/// calldata of its run. (Offsets in the calldata are kept in 32 bits.)
pub proof fn lemma_template_reproduces(runs: Seq<Observed>, slot: int, k: int)
    requires
        0 <= k < runs.len(),
        slot_template(runs, slot) is Some,
        bytes::words_bytes(runs[0].args).len() <= u32::MAX,
        runs[0].run.keys[slot].len() <= u32::MAX,
    ensures
        template_key(slot_template(runs, slot).unwrap(), bytes::words_bytes(runs[k].args)) == Some(runs[k].run.keys[slot]),
{
    let key0 = runs[0].run.keys[slot];
    if forall|k: int| 0 <= k < runs.len() ==> (#[trigger] runs[k]).run.keys[slot] == runs[0].run.keys[slot] {
        assert(runs[k].run.keys[slot] == key0);
    } else {
        lemma_common_prefix_bound(runs, slot, 0);
        let pre = common_prefix(runs, slot, 0) as int;
        lemma_common_suffix_bound(runs, slot, (key0.len() - pre) as nat, 0);
        let suf = common_suffix(runs, slot, (key0.len() - pre) as nat, 0) as int;
        let len = key0.len() - pre - suf;
        let start = bytes::find_first(bytes::words_bytes(runs[0].args), key0.subrange(pre, pre + len)).unwrap();
        assert(rebuilds(runs, slot, pre, len, start));
        assert(start + len <= bytes::words_bytes(runs[0].args).len());
        bytes::lemma_find_first_found(bytes::words_bytes(runs[0].args), key0.subrange(pre, pre + len));
        assert(runs[k].run.keys[slot] == key0.take(pre) + bytes::words_bytes(runs[k].args).subrange(start, start + len) + key0.skip(pre + len));
    }
}

proof fn lemma_common_suffix_bound(runs: Seq<Observed>, slot: int, limit: nat, from: nat)
    requires
        from <= limit,
    ensures
        from <= common_suffix(runs, slot, limit, from) <= limit,
    decreases limit - from,
{
    if from < limit && agree_at(runs, slot, runs[0].run.keys[slot].len() - 1 - from) {
        lemma_common_suffix_bound(runs, slot, limit, from + 1);
    }
}

} // verus!
