//! The oracle worlds that a view is lifted under, and one lifting run.
use vstd::prelude::*;
use std::rc::Rc;
use crate::analysis::lift::interp::{Interp, LiftEnv, LiftOutcome, LiftStorage};
use crate::analysis::lift::machine::{Executed, Machine, Setup};
use crate::analysis::lift::merge::Observation;
use crate::analysis::lift::module::{ModuleModel, WasmModule, PAGE};
use crate::analysis::lift::sym::{simplify_bytes, SymBool};
use crate::analysis::lift::{interp, machine, merge, module, sym};
use crate::bytes;
use crate::bytes::{encode_le, flatten_words, ByteMap};
use crate::plan::term;
use crate::plan::{BoolExpr, BytesExpr};

verus! {

/// Per-key storage value width (in bytes) discovered during lifting. Alkanes
/// contracts store scalars as fixed-width little-endian; a `u64`-typed key
/// deserialized from a 16-byte value (or a `u128` key from 8 bytes) hits a
/// `try_into().unwrap()` panic. The discovered widths let both the lifter and
/// the verifier hand each key a value it can actually decode.
pub type Widths = ByteMap<usize>;

/// The chain height of most worlds.
pub const TIP: u64 = 880_001;

/// How many instructions a run may take.
pub const MAX_STEPS: u64 = 5_000_000;

/* ─────────────── values ─────────────── */

/// FNV-1a of a key mixed with a salt.
pub open spec fn fnv_hash(key: Seq<u8>, salt: u64) -> u64
    decreases key.len(),
{
    if key.len() == 0 {
        0xcbf2_9ce4_8422_2325u64 ^ salt.wrapping_mul(0x1_0000_0001_b3)
    } else {
        (fnv_hash(key.drop_last(), salt) ^ (key.last() as u64)).wrapping_mul(0x1_0000_0001_b3)
    }
}

/// FNV-1a of `key` mixed with `salt`: a cheap deterministic per-(key,world)
/// value source for the oracle sweeps.
pub fn fnv(key: &[u8], salt: u64) -> (r: u64)
    ensures
        r == fnv_hash(key@, salt),
{
    let mut h: u64 = 0xcbf2_9ce4_8422_2325u64 ^ salt.wrapping_mul(0x1_0000_0001_b3);
    assert(key@.take(0) =~= Seq::empty());
    for i in 0..key.len()
        invariant
            h == fnv_hash(key@.take(i as int), salt),
    {
        assert(key@.take(i + 1).drop_last() =~= key@.take(i as int));
        h = (h ^ (key[i] as u64)).wrapping_mul(0x1_0000_0001_b3);
    }
    assert(key@.take(key@.len() as int) =~= key@);
    h
}

/// Where the stored numbers of a world come from.
#[derive(Debug, Clone, Copy, PartialEq, Eq, Structural)]
pub enum ValueSource {
    /// Every key holds the same number.
    Uniform(u128),
    /// Realistic magnitudes: see [`key_value`].
    Realistic { salt: u64, height: u64 },
    /// A hash of the key, up to a cap.
    Capped { salt: u64, cap: u64 },
    /// Each key is tiny or above the tip, as its hash has it.
    Split(u64),
}

/// A number biased toward realistic magnitudes.
pub open spec fn realistic(key: Seq<u8>, salt: u64, height: u64) -> u128 {
    let h = fnv_hash(key, salt);
    if h % 3 == 0 {
        let back = (h >> 8) % 210_000;
        if height > back { (height - back) as u128 } else { 0 }
    } else if h % 3 == 1 {
        ((h >> 8) % 1024) as u128
    } else {
        ((h >> 8) as u128) % ((if height > 1 { height } else { 1 }) as u128)
    }
}

/// The number that a source gives for a key.
pub open spec fn source_value(s: ValueSource, key: Seq<u8>) -> u128 {
    match s {
        ValueSource::Uniform(n) => n,
        ValueSource::Realistic { salt, height } => realistic(key, salt, height),
        ValueSource::Capped { salt, cap } => (fnv_hash(key, salt) as u128) % ((cap + 1) as u128),
        ValueSource::Split(split) => if fnv_hash(key, split ^ 0x9e37) & 1 == 0 {
            (fnv_hash(key, split) % 64) as u128
        } else {
            (TIP + fnv_hash(key, split) % 2_000_000) as u128
        },
    }
}

/// Deterministic pseudo-random per-key value biased toward realistic magnitudes:
/// sometimes just below the tip (so a genesis/height-typed key yields a small,
/// live epoch), sometimes small, sometimes spread across the range.
pub fn key_value(key: &[u8], salt: u64, height: u64) -> (r: u128)
    ensures
        r == realistic(key@, salt, height),
{
    let h: u64 = fnv(key, salt);
    if h % 3 == 0 {
        let back: u64 = (h >> 8) % 210_000;
        if height > back {
            (height - back) as u128
        } else {
            0
        }
    } else if h % 3 == 1 {
        ((h >> 8) % 1024) as u128
    } else {
        let range: u64 = if height > 1 { height } else { 1 };
        ((h >> 8) as u128) % (range as u128)
    }
}

impl ValueSource {
    /// The number for a key.
    pub fn value(&self, key: &[u8]) -> (r: u128)
        ensures
            r == source_value(*self, key@),
    {
        match self {
            ValueSource::Uniform(n) => *n,
            ValueSource::Realistic { salt, height } => key_value(key, *salt, *height),
            ValueSource::Capped { salt, cap } => (fnv(key, *salt) as u128) % (*cap as u128 + 1),
            ValueSource::Split(split) => {
                if fnv(key, *split ^ 0x9e37) & 1 == 0 {
                    (fnv(key, *split) % 64) as u128
                } else {
                    TIP as u128 + (fnv(key, *split) % 2_000_000) as u128
                }
            }
        }
    }
}

/// The width at which a key's value is handed out: 16 bytes until it was found to be
/// less.
pub open spec fn width_of(widths: Map<Seq<u8>, usize>, key: Seq<u8>) -> nat {
    let w = if widths.dom().contains(key) { widths[key] } else { 16 };
    if w < 16 { w as nat } else { 16 }
}

pub fn width_for(widths: &Widths, key: &[u8]) -> (r: usize)
    ensures
        r == width_of(widths.map(), key@),
        r <= 16,
{
    match widths.get(key) {
        Some(w) => if *w < 16 { *w } else { 16 },
        None => 16,
    }
}

/// The storage of a world.
pub struct WorldStorage<'a> {
    pub source: ValueSource,
    pub widths: &'a Widths,
}

/// What a world's storage holds.
pub open spec fn world_storage(source: ValueSource, widths: Map<Seq<u8>, usize>) -> spec_fn(Seq<u8>) -> Seq<u8> {
    |key: Seq<u8>| bytes::le_bytes(source_value(source, key) as int, width_of(widths, key))
}

impl<'a> LiftStorage for WorldStorage<'a> {
    open spec fn value(&self, key: Seq<u8>) -> Seq<u8> {
        bytes::le_bytes(source_value(self.source, key) as int, width_of(self.widths.map(), key))
    }

    fn read(&self, key: &[u8]) -> (r: Vec<u8>) {
        encode_le(self.source.value(key), width_for(self.widths, key))
    }
}

/* ─────────────── context ─────────────── */

/// The words of a lifting run's context: a fixed header, the opcode, and arguments
/// that count up from 0x1000.
pub open spec fn lift_words(opcode: u128, arg_count: nat) -> Seq<u128> {
    seq![2u128, 7777, 0, 0, 4, 0, opcode] + Seq::new(arg_count, |i: int| (0x1000 + i) as u128)
}

/// The context of a lifting run: no incoming alkanes. The input words begin behind the
/// opcode, at byte 112.
fn context_bytes(opcode: u128, arg_count: usize) -> (r: Vec<u8>)
    ensures
        r@ == bytes::words_bytes(lift_words(opcode, arg_count as nat)),
{
    let mut words: Vec<u128> = vec![2u128, 7777, 0, 0, 4, 0, opcode];
    let ghost head = words@;
    for i in 0..arg_count
        invariant
            words@.len() == head.len() + i,
            forall|j: int| 0 <= j < head.len() ==> words@[j] == head[j],
            forall|j: int| 0 <= j < i ==> #[trigger] words@[head.len() + j] == (0x1000 + j) as u128,
    {
        words.push(0x1000u128 + i as u128);
    }
    assert(words@ =~= lift_words(opcode, arg_count as nat)) by {
        assert forall|k: int| head.len() <= k < words@.len() implies words@[k] == lift_words(opcode, arg_count as nat)[k] by {
            let j = k - head.len();
            assert(words@[head.len() + j] == (0x1000 + j) as u128);
        }
    }
    flatten_words(words.as_slice())
}

/* ─────────────── one path ─────────────── */

/// A view to be lifted.
pub ghost struct Method {
    pub module: ModuleModel,
    pub opcode: u128,
    pub arg_count: nat,
}

/// What has been found out about widths: the width of each key that was narrowed, and
/// which candidate that was.
pub ghost struct WidthState {
    pub widths: Map<Seq<u8>, usize>,
    pub tried: Map<Seq<u8>, usize>,
}

/// The setup of a run.
pub open spec fn lift_setup(v: Method, height: u64, source: ValueSource, widths: Map<Seq<u8>, usize>, forced: Seq<bool>) -> Setup {
    Setup {
        module: v.module,
        context: bytes::words_bytes(lift_words(v.opcode, v.arg_count)),
        calldata_off: 112,
        height,
        storage: world_storage(source, widths),
        max_steps: MAX_STEPS,
        forced,
    }
}

/// What a run comes to.
pub open spec fn lift_run(v: Method, height: u64, source: ValueSource, widths: Map<Seq<u8>, usize>, forced: Seq<bool>) -> (Machine, Executed) {
    machine::executed(lift_setup(v, height, source, widths, forced), 0, machine::started(v.module))
}

/// The widths once `key` was narrowed, if a narrower one is left to try: the
/// candidates are 16 bytes, then 8.
pub open spec fn narrowed(ws: WidthState, key: Seq<u8>) -> Option<WidthState> {
    let next = if ws.tried.dom().contains(key) { ws.tried[key] + 1 } else { 1 };
    if next < 2 {
        Some(WidthState { widths: ws.widths.insert(key, 8), tried: ws.tried.insert(key, next as usize) })
    } else {
        None
    }
}

/// One world, with greedy width discovery: a run that traps narrows the key read last
/// and starts again, at most `k` times. Comes to the widths found, and to the branches
/// taken and the simplified result if a run got through.
pub open spec fn path_result(v: Method, height: u64, source: ValueSource, forced: Seq<bool>, ws: WidthState, k: nat) -> (WidthState, Option<Observation>)
    decreases k,
{
    if k == 0 {
        (ws, None)
    } else {
        let (st, out) = lift_run(v, height, source, ws.widths, forced);
        match out {
            Executed::Data(t) => (ws, Some(Observation { trace: st.path, result: sym::simple_bytes(t) })),
            Executed::Trap(_) => if st.asked.len() == 0 {
                (ws, None)
            } else {
                match narrowed(ws, st.asked.last()) {
                    Some(next) => path_result(v, height, source, forced, next, (k - 1) as nat),
                    None => (ws, None),
                }
            },
            _ => (ws, None),
        }
    }
}

/// The widths discovered so far.
pub struct Discovered {
    pub widths: Widths,
    pub tried: ByteMap<usize>,
}

impl Discovered {
    pub open spec fn state(self) -> WidthState {
        WidthState { widths: self.widths.map(), tried: self.tried.map() }
    }

    pub fn new() -> (r: Discovered)
        ensures
            r.state() == (WidthState { widths: Map::empty(), tried: Map::empty() }),
    {
        Discovered { widths: ByteMap::new(), tried: ByteMap::new() }
    }

    /// Narrows the width of the key read just before a trap: a fixed-width
    /// deserializer panics immediately after its read.
    fn narrow(&mut self, key: &Vec<u8>) -> (r: bool)
        ensures
            match narrowed(old(self).state(), key@) {
                Some(s) => r && final(self).state() == s,
                None => !r && final(self).state() == old(self).state(),
            },
    {
        let tried: usize = match self.tried.get(key.as_slice()) {
            Some(i) => *i,
            None => 0,
        };
        if tried >= 1 {
            return false; // exhausted widths: value trap, not width
        }
        self.tried.insert(bytes::copy_bytes(key.as_slice()), 1);
        self.widths.insert(bytes::copy_bytes(key.as_slice()), 8);
        true
    }
}

fn lower_path(path: &Vec<(Rc<SymBool>, bool)>) -> (r: Vec<(BoolExpr, bool)>)
    ensures
        merge::trace_terms(r@) == interp::path_terms(path@),
{
    let mut out: Vec<(BoolExpr, bool)> = Vec::new();
    let n: usize = path.len();
    for i in 0..n
        invariant
            n == path@.len(),
            out@.len() == i,
            forall|j: int| 0 <= j < i ==> (#[trigger] out@[j]).0.term() == path@[j].0.term() && out@[j].1 == path@[j].1,
    {
        if let Some(p) = path[i].0.lower() {
            out.push((p, path[i].1));
        }
    }
    assert(merge::trace_terms(out@) =~= interp::path_terms(path@));
    out
}

/// Whether a result is the one meant.
pub open spec fn path_found(r: Option<(Vec<(BoolExpr, bool)>, BytesExpr)>, o: Option<Observation>) -> bool {
    match r {
        Some((path, e)) => o == Some(Observation { trace: merge::trace_terms(path@), result: e.term() }),
        None => o is None,
    }
}

fn copy_bools(b: &[bool]) -> (r: Vec<bool>)
    ensures
        r@ == b@,
{
    vstd::slice::slice_to_vec(b)
}

/// Run one path under `forced` against a single oracle (with per-key width
/// discovery). `None` if it trapped / disqualified / couldn't lower.
pub fn run_path_one(
    m: &WasmModule,
    opcode: u128,
    arg_count: usize,
    height: u64,
    source: ValueSource,
    forced: &[bool],
    found: &mut Discovered,
) -> (r: Option<(Vec<(BoolExpr, bool)>, BytesExpr)>)
    requires
        m.mem_min_pages * PAGE <= usize::MAX,
    ensures
        ({
            let v = Method { module: m.model(), opcode, arg_count: arg_count as nat };
            let (ws, o) = path_result(v, height, source, forced@, old(found).state(), 16);
            final(found).state() == ws && path_found(r, o)
        }),
{
    let ghost v = Method { module: m.model(), opcode, arg_count: arg_count as nat };
    let ghost start = found.state();
    for k in 0..16usize
        invariant
            m.mem_min_pages * PAGE <= usize::MAX,
            v == (Method { module: m.model(), opcode, arg_count: arg_count as nat }),
            start == old(found).state(),
            path_result(v, height, source, forced@, start, 16) == path_result(v, height, source, forced@, found.state(), (16 - k) as nat),
    {
        let ghost ws = found.state();
        let ghost run = lift_run(v, height, source, ws.widths, forced@);
        let mut path: Vec<(Rc<SymBool>, bool)> = Vec::new();
        let (outcome, last) = {
            let storage = WorldStorage { source, widths: &found.widths };
            let env = LiftEnv { context: context_bytes(opcode, arg_count), calldata_off: 112, height, storage: &storage };
            let mut interp = Interp::new(m, &env, MAX_STEPS);
            interp.set_forced(copy_bools(forced));
            assert(interp::storage_fn(storage) =~= world_storage(source, ws.widths));
            assert(interp.setup() == lift_setup(v, height, source, ws.widths, forced@));
            let outcome = interp.run_execute();
            let last = interp.last_asked();
            path = interp.take_path();
            (outcome, last)
        };
        match outcome {
            LiftOutcome::Data(data) => {
                return match data.lower() {
                    Some(e) => Some((lower_path(&path), simplify_bytes(e))),
                    None => None,
                };
            }
            LiftOutcome::Trap(_) => {
                match last {
                    None => {
                        return None;
                    }
                    Some(key) => {
                        if !found.narrow(&key) {
                            return None;
                        }
                    }
                }
            }
            _ => {
                return None; // Disqualified / Unsupported: retrying won't help
            }
        }
    }
    None
}

} // verus!
