//! Differential verification: a synthesized plan is trustworthy only if it
//! reproduces the wasm's output across many fresh randomized oracles. This is
//! the soundness backstop: the synthesizer may propose anything; nothing ships
//! without surviving here.
use vstd::prelude::*;
use crate::analysis::host;
use crate::analysis::host::{Oracle, OracleModel, Outcome, OutcomeModel, Prober, ProberModel};
use crate::analysis::synth;
use crate::analysis::synth::{rand_args, KeyModel, KeySet, KeyShape, KeyTemplate, Rng};
use crate::bytes;
use crate::bytes::{copy_bytes, cut, encode_le, flatten_words, same_bytes, stored_value, ByteMap};
use crate::plan::eval;
use crate::plan::{eval_bytes, BytesExpr, BytesTerm, PlanEnv, PlanError, World};

verus! {

/// A PlanEnv backed by a concrete oracle + calldata (the probe host's world exactly,
/// so plan and wasm see identical inputs).
pub struct OracleEnv<'a> {
    pub oracle: &'a Oracle,
    pub words: &'a [u128],
    /// The keys asked for.
    pub keys: Ghost<Seq<Seq<u8>>>,
}

impl<'a> OracleEnv<'a> {
    /// Nothing has been asked for yet.
    pub fn new(oracle: &'a Oracle, words: &'a [u128]) -> (r: Self)
        ensures
            r.oracle == oracle,
            r.words == words,
            r.asked() == Seq::<Seq<u8>>::empty(),
    {
        OracleEnv { oracle, words, keys: Ghost(Seq::empty()) }
    }
}

/// The world that a plan sees in an oracle.
pub open spec fn world_of(o: OracleModel, args: Seq<u128>) -> World {
    World { storage: o.storage, height: o.height, words: args }
}

impl<'a> PlanEnv for OracleEnv<'a> {
    open spec fn world(&self) -> World {
        world_of(self.oracle.model(), self.words@)
    }

    open spec fn asked(&self) -> Seq<Seq<u8>> {
        self.keys@
    }

    fn storage(&mut self, key: &[u8]) -> (value: Vec<u8>) {
        proof {
            self.keys@ = self.keys@.push(key@);
        }
        stored_value(&self.oracle.storage, key)
    }

    fn height(&self) -> (height: u64) {
        self.oracle.height
    }

    fn words(&self) -> (words: &[u128]) {
        self.words
    }
}

/// The storage value-width distribution to probe with. Alkanes' StoragePointer
/// writes fixed-width integers (`set_value::<u64>` gives 8 bytes, `::<u128>` 16)
/// or raw byte/UTF-8 blobs, and an unset key reads as empty. Integer-typed and
/// string-typed getters need different distributions to fit (a binary blob
/// makes a `from_utf8` getter trap; a short/ascii blob makes an integer getter
/// take a `len < N` guard branch), so we probe each archetype separately and
/// VERIFY each candidate against the same distribution it was fit on.
#[derive(Debug, Clone, Copy, PartialEq, Eq, Structural)]
pub enum ValueDist {
    /// Empty, 8-byte, and 16-byte little-endian integers.
    Integer,
    /// Empty and printable-ASCII/UTF-8 blobs.
    Stringy,
}

impl ValueDist {
    pub const ALL: [ValueDist; 2] = [ValueDist::Integer, ValueDist::Stringy];
}

/// `n` printable characters drawn: the generator's state, and the characters.
pub open spec fn draw_printable(s: u64, n: nat) -> (u64, Seq<u8>)
    decreases n,
{
    if n == 0 {
        (s, Seq::empty())
    } else {
        let (t, b) = draw_printable(s, (n - 1) as nat);
        let (u, c) = synth::draw64(t);
        (u, b.push((c % 94 + 33) as u8))
    }
}

/// A storage value drawn: the generator's state, and the value.
pub open spec fn draw_stored(s: u64, dist: ValueDist) -> (u64, Seq<u8>) {
    let (t, pick) = synth::draw64(s);
    match dist {
        ValueDist::Integer => if pick % 4 == 0 {
            (t, Seq::empty())
        } else if pick % 4 == 1 {
            let (u, n) = synth::draw64(t);
            (u, bytes::le_bytes(n as int, 8))
        } else {
            let (u, n) = synth::draw_value(t);
            (u, bytes::le_bytes(n as int, 16))
        },
        ValueDist::Stringy => if pick % 3 == 0 {
            (t, Seq::empty())
        } else {
            let (u, n) = synth::draw64(t);
            draw_printable(u, (n % 20 + 1) as nat)
        },
    }
}

/// A storage value from the given distribution. The EMPTY value (a missing
/// key) is always in play: it exercises default-fallback branches, and getting
/// it into verification is what stops a bare-passthrough plan from shipping for
/// a method that actually returns a default when its key is unset.
pub fn random_value(rng: &mut Rng, dist: ValueDist) -> (r: Vec<u8>)
    ensures
        (final(rng).state(), r@) == draw_stored(old(rng).state(), dist),
{
    let pick: u64 = rng.next_u64();
    match dist {
        ValueDist::Integer => {
            if pick % 4 == 0 {
                Vec::new()
            } else if pick % 4 == 1 {
                encode_le(rng.next_u64() as u128, 8)
            } else {
                encode_le(rng.value_u128(), 16)
            }
        }
        ValueDist::Stringy => {
            if pick % 3 == 0 {
                Vec::new()
            } else {
                let n: u64 = rng.next_u64() % 20 + 1;
                let ghost s = rng.state();
                let mut out: Vec<u8> = Vec::new();
                for i in 0..n
                    invariant
                        (rng.state(), out@) == draw_printable(s, i as nat),
                {
                    out.push((rng.next_u64() % 94) as u8 + 33);
                }
                out
            }
        }
    }
}

/// Concrete key bytes for a case's calldata (None if calldata is too short).
pub fn concrete_key(key: &KeyShape, calldata: &[u8]) -> (r: Option<Vec<u8>>)
    ensures
        match r {
            Some(k) => synth::template_key(key.template(), calldata@) == Some(k@),
            None => synth::template_key(key.template(), calldata@) is None,
        },
{
    match key {
        KeyShape::Const(b) => Some(copy_bytes(b.as_slice())),
        KeyShape::Templated { prefix, suffix, cd_start, cd_len } => {
            if *cd_start as u64 + *cd_len as u64 > calldata.len() as u64 {
                return None;
            }
            let start: usize = *cd_start as usize;
            let end: usize = (*cd_start as u64 + *cd_len as u64) as usize;
            let mut out = copy_bytes(prefix.as_slice());
            let mut middle = cut(calldata, start, end);
            out.append(&mut middle);
            let mut tail = copy_bytes(suffix.as_slice());
            out.append(&mut tail);
            Some(out)
        }
    }
}

/// A randomized case: the generator's state past it, the world, and the arguments.
pub ghost struct Case {
    pub state: u64,
    pub oracle: OracleModel,
    pub args: Seq<u128>,
}

/// The first `n` keys of a set given random values: the generator's state, and the
/// storage. An empty value leaves its key unset.
pub open spec fn draw_storage(s: u64, keys: Seq<KeyTemplate>, n: nat, calldata: Seq<u8>, dist: ValueDist) -> (u64, Map<Seq<u8>, Seq<u8>>)
    decreases n,
{
    if n == 0 {
        (s, Map::empty())
    } else {
        let (t, m) = draw_storage(s, keys, (n - 1) as nat, calldata, dist);
        match synth::template_key(keys[n - 1], calldata) {
            None => (t, m),
            Some(key) => {
                let (u, value) = draw_stored(t, dist);
                (u, if value.len() == 0 { m } else { m.insert(key, value) })
            }
        }
    }
}

/// A random world populating the keys of a set, with random height and calldata.
pub open spec fn draw_case(set: KeySet, s: u64, dist: ValueDist) -> Case {
    let (t, h) = synth::draw64(s);
    let (u, args) = synth::draw_args(t, set.arg_count);
    let (v, storage) = draw_storage(u, set.keys, set.keys.len(), bytes::words_bytes(args), dist);
    Case { state: v, oracle: OracleModel { storage, height: h % 2_000_000, ..host::default_oracle() }, args }
}

/// Build a random oracle populating the model's keys (empty values included),
/// with random height and calldata.
pub fn random_case(model: &KeyModel, rng: &mut Rng, dist: ValueDist) -> (r: (Oracle, Vec<u128>))
    ensures
        draw_case(model.set(), old(rng).state(), dist) == (Case { state: final(rng).state(), oracle: r.0.model(), args: r.1@ }),
{
    let mut oracle = Oracle::default();
    oracle.height = rng.next_u64() % 2_000_000;
    let args = rand_args(rng, model.arg_count);
    let calldata = flatten_words(args.as_slice());
    let ghost s = rng.state();
    let ghost keys = model.set().keys;
    let n: usize = model.keys.len();
    let mut storage: ByteMap<Vec<u8>> = ByteMap::new();
    assert(bytes::bytes_map(storage.map()) =~= Map::empty());
    for i in 0..n
        invariant
            n == model.keys@.len(),
            keys == model.set().keys,
            (rng.state(), bytes::bytes_map(storage.map())) == draw_storage(s, keys, i as nat, calldata@, dist),
    {
        assert(keys[i as int] == model.keys@[i as int].template());
        if let Some(key) = concrete_key(&model.keys[i], calldata.as_slice()) {
            let value = random_value(rng, dist);
            let ghost before = bytes::bytes_map(storage.map());
            if value.len() > 0 {
                storage.insert(key, value);
                assert(bytes::bytes_map(storage.map()) =~= before.insert(key@, value@));
            }
            // empty value == leave key unset (missing == zero-length in host)
        }
    }
    oracle.storage = storage;
    (oracle, args)
}

/// Where randomized cases come from.
pub trait CaseSource {
    /// The case drawn from a generator state; none if the method is out of reach.
    spec fn case(&self, s: u64) -> Option<Case>;

    fn draw(&self, rng: &mut Rng) -> (r: Option<(Oracle, Vec<u128>)>)
        ensures
            match r {
                Some((o, args)) => self.case(old(rng).state()) == Some(Case { state: final(rng).state(), oracle: o.model(), args: args@ }),
                None => self.case(old(rng).state()) is None,
            },
    ;
}

/// The cases of a source.
pub open spec fn case_fn<C: CaseSource>(cases: C) -> spec_fn(u64) -> Option<Case> {
    |s: u64| cases.case(s)
}

/// How many comparisons passed, after `k` attempts that stop at `trials` of them; none
/// once a plan was rejected. A run that does not succeed is no comparison.
pub open spec fn progress(p: ProberModel, opcode: u128, cases: spec_fn(u64) -> Option<Case>, e: BytesTerm, trials: u32, seed: u64, k: nat) -> Option<(u64, u32)>
    decreases k,
{
    if k == 0 {
        Some((seed, 0))
    } else {
        match progress(p, opcode, cases, e, trials, seed, (k - 1) as nat) {
            None => None,
            Some((s, passed)) => if passed >= trials {
                Some((s, passed))
            } else {
                match cases(s) {
                    None => None,
                    Some(c) => match p.outcome(opcode, c.args, c.oracle) {
                        Err(_) => None,
                        Ok(run) => match run.outcome {
                            OutcomeModel::Success(data) => if eval::bytes_value(e, world_of(c.oracle, c.args), None) == Ok::<Seq<u8>, PlanError>(data) {
                                Some((c.state, (passed + 1) as u32))
                            } else {
                                None
                            },
                            _ => Some((c.state, passed)),
                        },
                    },
                }
            },
        }
    }
}

/// How often a plan is tried: more often than needed, so that disqualified and trap
/// cases (skipped) still let `trials` genuine comparisons be reached.
pub open spec fn max_attempts(trials: u32) -> int {
    let most = if 8 * trials > trials + 32 { 8 * trials } else { trials + 32 };
    if most > u32::MAX { u32::MAX as int } else { most }
}

/// The number of comparisons passed, if that is `trials` and none failed.
pub open spec fn passed(p: ProberModel, opcode: u128, cases: spec_fn(u64) -> Option<Case>, e: BytesTerm, trials: u32, seed: u64) -> Option<u32> {
    match progress(p, opcode, cases, e, trials, seed, max_attempts(trials) as nat) {
        Some((_, n)) => if n >= trials { Some(n) } else { None },
        None => None,
    }
}

proof fn lemma_progress_stopped(p: ProberModel, opcode: u128, cases: spec_fn(u64) -> Option<Case>, e: BytesTerm, trials: u32, seed: u64, k: nat, m: nat)
    requires
        k <= m,
        match progress(p, opcode, cases, e, trials, seed, k) {
            None => true,
            Some((_, n)) => n >= trials,
        },
    ensures
        progress(p, opcode, cases, e, trials, seed, m) == progress(p, opcode, cases, e, trials, seed, k),
    decreases m,
{
    if k < m {
        lemma_progress_stopped(p, opcode, cases, e, trials, seed, k, (m - 1) as nat);
    }
}

/// Runs randomized differential checks until `trials` have passed.
pub fn differential<C: CaseSource>(prober: &Prober, opcode: u128, cases: &C, expr: &BytesExpr, trials: u32, seed: u64) -> (r: Option<u32>)
    ensures
        r == passed(prober.model(), opcode, case_fn(*cases), expr.term(), trials, seed),
{
    let mut rng = Rng::new(seed);
    let mut checked: u32 = 0;
    let mut attempts: u32 = 0;
    let more: u64 = if 8 * trials as u64 > trials as u64 + 32 { 8 * trials as u64 } else { trials as u64 + 32 };
    let max: u32 = if more > u32::MAX as u64 { u32::MAX } else { more as u32 };
    assert(max == max_attempts(trials));
    while checked < trials && attempts < max
        invariant
            max == max_attempts(trials),
            attempts <= max,
            checked <= trials,
            progress(prober.model(), opcode, case_fn(*cases), expr.term(), trials, seed, attempts as nat) == Some((rng.state(), checked)),
        decreases max - attempts,
    {
        proof {
            if progress(prober.model(), opcode, case_fn(*cases), expr.term(), trials, seed, (attempts + 1) as nat) is None {
                lemma_progress_stopped(prober.model(), opcode, case_fn(*cases), expr.term(), trials, seed, (attempts + 1) as nat, max as nat);
            }
        }
        attempts = attempts + 1;
        let (oracle, args) = match cases.draw(&mut rng) {
            None => {
                return None;
            }
            Some(case) => case,
        };
        match prober.run(opcode, args.as_slice(), &oracle) {
            Err(_) => {
                return None;
            }
            Ok(run) => {
                // Traps/disqualifications on a given case aren't comparisons; the
                // plan only needs to match successful executions. Skip.
                if let Outcome::Success(expected) = run.outcome {
                    let mut env = OracleEnv::new(&oracle, args.as_slice());
                    match eval_bytes(expr, &mut env, None) {
                        Ok(got) => {
                            if !same_bytes(got.as_slice(), expected.as_slice()) {
                                return None;
                            }
                            checked = checked + 1;
                        }
                        Err(_) => {
                            return None;
                        }
                    }
                }
            }
        }
    }
    proof {
        if checked >= trials {
            lemma_progress_stopped(prober.model(), opcode, case_fn(*cases), expr.term(), trials, seed, attempts as nat, max as nat);
        }
    }
    if checked >= trials {
        Some(checked)
    } else {
        None
    }
}

/// Whether an attempt was made, and the wasm either did not succeed or gave the bytes
/// that the plan gives.
pub open spec fn attempt_agrees(p: ProberModel, opcode: u128, case: Option<Case>, e: BytesTerm) -> bool {
    match case {
        None => false,
        Some(c) => match p.outcome(opcode, c.args, c.oracle) {
            Err(_) => false,
            Ok(run) => match run.outcome {
                OutcomeModel::Success(data) => eval::bytes_value(e, world_of(c.oracle, c.args), None) == Ok::<Seq<u8>, PlanError>(data),
                _ => true,
            },
        },
    }
}

/// A verified plan was compared `trials` times, and whatever was compared on the way
/// agreed: in each attempt made, the wasm either did not succeed or gave the bytes
/// that the plan gives.
pub proof fn lemma_verified(p: ProberModel, opcode: u128, cases: spec_fn(u64) -> Option<Case>, e: BytesTerm, trials: u32, seed: u64, k: nat)
    requires
        passed(p, opcode, cases, e, trials, seed) is Some,
        k < max_attempts(trials),
    ensures
        passed(p, opcode, cases, e, trials, seed) == Some(trials),
        match progress(p, opcode, cases, e, trials, seed, k) {
            Some((s, n)) => n < trials ==> attempt_agrees(p, opcode, cases(s), e),
            None => false,
        },
{
    lemma_progress_bound(p, opcode, cases, e, trials, seed, max_attempts(trials) as nat);
    if progress(p, opcode, cases, e, trials, seed, k) is None {
        lemma_progress_stopped(p, opcode, cases, e, trials, seed, k, max_attempts(trials) as nat);
    } else if progress(p, opcode, cases, e, trials, seed, k + 1) is None {
        lemma_progress_stopped(p, opcode, cases, e, trials, seed, k + 1, max_attempts(trials) as nat);
    }
}

proof fn lemma_progress_bound(p: ProberModel, opcode: u128, cases: spec_fn(u64) -> Option<Case>, e: BytesTerm, trials: u32, seed: u64, k: nat)
    ensures
        progress(p, opcode, cases, e, trials, seed, k) matches Some((_, n)) ==> n <= trials,
    decreases k,
{
    if k > 0 {
        lemma_progress_bound(p, opcode, cases, e, trials, seed, (k - 1) as nat);
    }
}

/// Cases that populate the keys of a model.
pub struct ModelCases<'a> {
    pub model: &'a KeyModel,
    pub dist: ValueDist,
}

impl<'a> CaseSource for ModelCases<'a> {
    open spec fn case(&self, s: u64) -> Option<Case> {
        Some(draw_case(self.model.set(), s, self.dist))
    }

    fn draw(&self, rng: &mut Rng) -> (r: Option<(Oracle, Vec<u128>)>) {
        Some(random_case(self.model, rng, self.dist))
    }
}

/// The cases that populate the keys of a set.
pub open spec fn model_cases(set: KeySet, dist: ValueDist) -> spec_fn(u64) -> Option<Case> {
    |s: u64| Some(draw_case(set, s, dist))
}

/// Run `trials` randomized differential checks. Returns the number passed if
/// all passed; None if any disagreed (with the wasm's Success outcome): a
/// single mismatch rejects the plan.
pub fn verify(
    prober: &Prober,
    opcode: u128,
    model: &KeyModel,
    expr: &BytesExpr,
    trials: u32,
    seed: u64,
    dist: ValueDist,
) -> (r: Option<u32>)
    ensures
        r == passed(prober.model(), opcode, model_cases(model.set(), dist), expr.term(), trials, seed),
{
    let cases = ModelCases { model, dist };
    assert(case_fn(cases) =~= model_cases(model.set(), dist));
    differential(prober, opcode, &cases, expr, trials, seed)
}

/// The storage of a list of keys and values: of two with one key the last counts.
pub open spec fn pairs_map(pairs: Seq<(&[u8], &[u8])>) -> Map<Seq<u8>, Seq<u8>>
    decreases pairs.len(),
{
    if pairs.len() == 0 {
        Map::empty()
    } else {
        pairs_map(pairs.drop_last()).insert(pairs.last().0@, pairs.last().1@)
    }
}

/// Convenience: an empty storage plus specified keys.
pub fn oracle_with(pairs: &[(&[u8], &[u8])]) -> (r: Oracle)
    ensures
        r.model() == (OracleModel { storage: pairs_map(pairs@), ..host::default_oracle() }),
{
    let mut oracle = Oracle::default();
    let mut storage: ByteMap<Vec<u8>> = ByteMap::new();
    assert(bytes::bytes_map(storage.map()) =~= Map::empty());
    for i in 0..pairs.len()
        invariant
            bytes::bytes_map(storage.map()) == pairs_map(pairs@.take(i as int)),
    {
        let ghost before = bytes::bytes_map(storage.map());
        assert(pairs@.take(i + 1).drop_last() =~= pairs@.take(i as int));
        storage.insert(copy_bytes(pairs[i].0), copy_bytes(pairs[i].1));
        assert(bytes::bytes_map(storage.map()) =~= before.insert(pairs@[i as int].0@, pairs@[i as int].1@));
    }
    assert(pairs@.take(pairs@.len() as int) =~= pairs@);
    oracle.storage = storage;
    oracle
}

} // verus!
