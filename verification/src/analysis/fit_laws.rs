//! What sampling a method and fitting an expression to the samples promise.
use vstd::prelude::*;
use crate::analysis::fit;
use crate::analysis::fit::{NumberFit, SampleModel};
use crate::analysis::host::{OutcomeModel, ProberModel};
use crate::analysis::laws;
use crate::analysis::synth;
use crate::analysis::synth::{FeatureModel, KeySet, KeyTemplate};
use crate::analysis::verify;
use crate::analysis::verify::ValueDist;
use crate::bytes;
use crate::plan::eval;
use crate::plan::term;
use crate::plan::term::NumOp;
use crate::plan::{BytesTerm, NumTerm, PlanError, World};

verus! {

/// The world of a sample.
pub open spec fn sample_world(s: SampleModel) -> World {
    World { storage: s.oracle.storage, height: s.oracle.height, words: s.args }
}

/* ─────────────── samples ─────────────── */

/// Every sample is a case that was drawn, with what the wasm gives in it; there are at
/// most as many as were asked for, and at most as many as attempts.
pub proof fn lemma_samples(p: ProberModel, opcode: u128, set: KeySet, dist: ValueDist, n: nat, k: nat, i: int)
    ensures
        fit::sampled(p, opcode, set, dist, n, k).1.len() <= n,
        fit::sampled(p, opcode, set, dist, n, k).1.len() <= k,
        0 <= i < fit::sampled(p, opcode, set, dist, n, k).1.len() ==> {
            let s = fit::sampled(p, opcode, set, dist, n, k).1[i];
            &&& p.outcome(opcode, s.args, s.oracle) matches Ok(run) && run.outcome == OutcomeModel::Success(s.output)
            &&& exists|state: u64| (#[trigger] verify::draw_case(set, state, dist)).args == s.args && verify::draw_case(set, state, dist).oracle
                == s.oracle
        },
    decreases k,
{
    if k > 0 {
        lemma_samples(p, opcode, set, dist, n, (k - 1) as nat, i);
        let (s, got) = fit::sampled(p, opcode, set, dist, n, (k - 1) as nat);
        let c = verify::draw_case(set, s, dist);
        if i == got.len() && i < fit::sampled(p, opcode, set, dist, n, k).1.len() {
            assert(fit::sampled(p, opcode, set, dist, n, k).1[i].args == verify::draw_case(set, s, dist).args);
        }
    }
}

/// An attempt gives a sample exactly if the wasm succeeds in its case, as long as more
/// are wanted; the next attempt draws from the state past the case.
pub proof fn lemma_sample_attempt(p: ProberModel, opcode: u128, set: KeySet, dist: ValueDist, n: nat, k: nat)
    ensures
        fit::sampled(p, opcode, set, dist, n, 0).1.len() == 0,
        fit::sampled(p, opcode, set, dist, n, k).1.len() < n ==> {
            let (s, got) = fit::sampled(p, opcode, set, dist, n, k);
            let c = verify::draw_case(set, s, dist);
            &&& fit::sampled(p, opcode, set, dist, n, k + 1).0 == c.state
            &&& if p.outcome(opcode, c.args, c.oracle) matches Ok(run) && run.outcome is Success {
                fit::sampled(p, opcode, set, dist, n, k + 1).1.len() == got.len() + 1
            } else {
                fit::sampled(p, opcode, set, dist, n, k + 1).1 == got
            }
            &&& forall|i: int| 0 <= i < got.len() ==> fit::sampled(p, opcode, set, dist, n, k + 1).1[i] == #[trigger] got[i]
        },
        fit::sampled(p, opcode, set, dist, n, k).1.len() >= n ==> fit::sampled(p, opcode, set, dist, n, k + 1) == fit::sampled(
            p,
            opcode,
            set,
            dist,
            n,
            k,
        ),
        fit::samples_of(p, opcode, set, dist) == fit::sampled(p, opcode, set, dist, 40, 400).1,
{
}

/// The two distributions are sampled from different states, and so are opcodes that
/// differ in their low half.
pub proof fn lemma_seeds(opcode: u128, other: u128, dist: ValueDist)
    ensures
        fit::sample_seed(opcode, ValueDist::Integer) != fit::sample_seed(opcode, ValueDist::Stringy),
        opcode as u64 != other as u64 ==> fit::sample_seed(opcode, dist) != fit::sample_seed(other, dist),
{
    let a = opcode as u64;
    let b = other as u64;
    assert({
        &&& 0x5A34D0u64 ^ a ^ 0u64 != 0x5A34D0u64 ^ a ^ 0x1_0000_0000_0000u64
        &&& a != b ==> 0x5A34D0u64 ^ a ^ 0u64 != 0x5A34D0u64 ^ b ^ 0u64
        &&& a != b ==> 0x5A34D0u64 ^ a ^ 0x1_0000_0000_0000u64 != 0x5A34D0u64 ^ b ^ 0x1_0000_0000_0000u64
    }) by (bit_vector);
}

/* ─────────────── what fits ─────────────── */

/// What is fitted reproduces every sample, and nothing is fitted to fewer than eight.
pub proof fn lemma_fitted_reproduces(set: KeySet, samples: Seq<SampleModel>, e: BytesTerm, i: int)
    requires
        fit::fitted(set, samples) == Some(e),
    ensures
        samples.len() >= 8,
        0 <= i < samples.len() ==> eval::bytes_value(e, sample_world(samples[i]), None) == Ok::<Seq<u8>, PlanError>(samples[i].output),
{
    fit::lemma_fitted(set, samples);
    if 0 <= i < samples.len() {
        assert(fit::value_on(e, samples[i]) == Ok::<Seq<u8>, PlanError>(samples[i].output));
    }
}

/// One output throughout is fitted by that constant.
pub proof fn lemma_constant_fitted(set: KeySet, samples: Seq<SampleModel>, b: Seq<u8>)
    requires
        samples.len() >= 8,
        forall|i: int| 0 <= i < samples.len() ==> (#[trigger] samples[i]).output == b,
    ensures
        fit::fitted(set, samples) == Some(BytesTerm::Const(b)),
{
}

proof fn lemma_first_found(candidates: Seq<Option<BytesTerm>>, samples: Seq<SampleModel>, from: nat, i: int, e: BytesTerm)
    requires
        from <= i < candidates.len(),
        candidates[i] == Some(e),
        fit::fits(e, samples),
    ensures
        fit::first_fitting(candidates, samples, from) is Some,
    decreases candidates.len() - from,
{
    if from < i {
        lemma_first_found(candidates, samples, from + 1, i, e);
    }
}

/// The bytes under the key of a template in a sample.
pub open spec fn under(t: KeyTemplate, s: SampleModel) -> Seq<u8> {
    sample_world(s).value(synth::template_key(t, bytes::words_bytes(s.args))->Some_0)
}

/// A method that gives the bytes under one of its keys as they are is fitted, whatever
/// they are, and by what is stored under a key unless all outputs are the same.
pub proof fn lemma_passthrough_fitted(set: KeySet, samples: Seq<SampleModel>, i: int)
    requires
        samples.len() >= 8,
        0 <= i < set.keys.len(),
        forall|k: int| 0 <= k < samples.len() ==> synth::template_key(set.keys[i], bytes::words_bytes((#[trigger] samples[k]).args)) is Some
            && samples[k].output == under(set.keys[i], samples[k]),
    ensures
        fit::fitted(set, samples) matches Some(e) && (e is Const || e is Storage),
{
    let e = synth::stored_term(set.keys[i]);
    assert forall|k: int| 0 <= k < samples.len() implies fit::value_on(e, #[trigger] samples[k]) == Ok::<Seq<u8>, PlanError>(
        samples[k].output,
    ) by {
        laws::lemma_template_value(set.keys[i], sample_world(samples[k]));
    }
    lemma_first_found(fit::passthrough_candidates(set), samples, 0, i, e);
    lemma_first_stored(set, samples, 0);
}

proof fn lemma_first_stored(set: KeySet, samples: Seq<SampleModel>, from: nat)
    ensures
        fit::first_fitting(fit::passthrough_candidates(set), samples, from) matches Some(e) ==> e is Storage,
    decreases set.keys.len() - from,
{
    if from < set.keys.len() {
        lemma_first_stored(set, samples, from + 1);
    }
}

proof fn lemma_unset_found(t: KeyTemplate, samples: Seq<SampleModel>, d: Seq<u8>)
    requires
        forall|k: int| 0 <= k < samples.len() && fit::stored_in(t, #[trigger] samples[k]).len() == 0 ==> samples[k].output == d,
    ensures
        fit::unset_output(t, samples) matches Some(x) ==> x == d,
        (exists|k: int| 0 <= k < samples.len() && fit::stored_in(t, #[trigger] samples[k]).len() == 0) ==> fit::unset_output(t, samples) is Some,
    decreases samples.len(),
{
    if samples.len() > 0 {
        let before = samples.drop_last();
        assert forall|k: int| 0 <= k < before.len() && fit::stored_in(t, #[trigger] before[k]).len() == 0 implies before[k].output == d by {
            assert(before[k] == samples[k]);
        }
        lemma_unset_found(t, before, d);
        assert(samples.last() == samples[samples.len() - 1]);
        if exists|k: int| 0 <= k < samples.len() && fit::stored_in(t, #[trigger] samples[k]).len() == 0 {
            let k = choose|k: int| 0 <= k < samples.len() && fit::stored_in(t, #[trigger] samples[k]).len() == 0;
            if k < before.len() {
                assert(before[k] == samples[k]);
            }
        }
    }
}

/// A method that gives the bytes under one of its keys, and one default where the key is
/// unset, is fitted if samples show both. So is one that gives the number stored there,
/// if all its outputs have one width of at most 16 bytes.
pub proof fn lemma_default_fitted(set: KeySet, samples: Seq<SampleModel>, i: int, d: Seq<u8>, width: Option<u8>)
    requires
        samples.len() >= 8,
        0 <= i < set.keys.len(),
        width matches Some(w) ==> 0 < w <= 16 && d.len() == w,
        forall|k: int| 0 <= k < samples.len() ==> synth::template_key(set.keys[i], bytes::words_bytes((#[trigger] samples[k]).args)) is Some
            && under(set.keys[i], samples[k]).len() <= usize::MAX,
        forall|k: int| 0 <= k < samples.len() && under(set.keys[i], #[trigger] samples[k]).len() == 0 ==> samples[k].output == d,
        forall|k: int| 0 <= k < samples.len() && under(set.keys[i], #[trigger] samples[k]).len() > 0 ==> samples[k].output == (match width {
            None => under(set.keys[i], samples[k]),
            Some(w) => bytes::le_bytes(bytes::low_num(under(set.keys[i], samples[k])) as int, w as nat),
        }),
        exists|k: int| 0 <= k < samples.len() && under(set.keys[i], #[trigger] samples[k]).len() == 0,
        exists|k: int| 0 <= k < samples.len() && under(set.keys[i], #[trigger] samples[k]).len() > 0,
    ensures
        fit::fitted(set, samples) is Some,
{
    let t = set.keys[i];
    assert forall|k: int| 0 <= k < samples.len() implies fit::stored_in(t, #[trigger] samples[k]) == under(t, samples[k]) by {}
    let z = choose|k: int| 0 <= k < samples.len() && under(t, #[trigger] samples[k]).len() == 0;
    assert(fit::stored_in(t, samples[z]).len() == 0);
    let o = choose|k: int| 0 <= k < samples.len() && under(t, #[trigger] samples[k]).len() > 0;
    assert(fit::stored_in(t, samples[o]).len() > 0);
    lemma_unset_found(t, samples, d);
    assert(fit::unset_output(t, samples) == Some(d));
    assert forall|k: int| 0 <= k < samples.len() implies (#[trigger] samples[k]).output == if fit::stored_in(t, samples[k]).len() == 0 {
        d
    } else {
        fit::set_output(fit::stored_in(t, samples[k]), width)
    } by {
        assert(fit::stored_in(t, samples[k]) == under(t, samples[k]));
    }
    assert(fit::gives_default(t, samples, width, d));
    let e = fit::default_term(t, width, d);
    assert forall|k: int| 0 <= k < samples.len() implies fit::value_on(e, #[trigger] samples[k]) == Ok::<Seq<u8>, PlanError>(
        samples[k].output,
    ) by {
        lemma_default_value(t, width, d, sample_world(samples[k]));
        assert(fit::stored_in(t, samples[k]) == under(t, samples[k]));
    }
    assert(fit::default_candidates(set, samples, width)[i] == Some(e));
    lemma_first_found(fit::default_candidates(set, samples, width), samples, 0, i, e);
    if let Some(w) = width {
        assert forall|k: int| 0 <= k < samples.len() implies (#[trigger] samples[k]).output.len() == w by {
            if under(t, samples[k]).len() > 0 {
                bytes::lemma_le_bytes_len(bytes::low_num(under(t, samples[k])) as int, w as nat);
            }
        }
        assert(samples[0].output.len() == w);
        assert(fit::same_width(samples) == Some(w));
    }
}

proof fn lemma_default_value(t: KeyTemplate, width: Option<u8>, d: Seq<u8>, w: World)
    requires
        synth::template_key(t, bytes::words_bytes(w.words)) is Some,
        width matches Some(n) ==> n <= 16,
        w.value(synth::template_key(t, bytes::words_bytes(w.words))->Some_0).len() <= usize::MAX,
    ensures
        eval::bytes_value(fit::default_term(t, width, d), w, None) == Ok::<Seq<u8>, PlanError>(
            if w.value(synth::template_key(t, bytes::words_bytes(w.words))->Some_0).len() == 0 {
                d
            } else {
                match width {
                    None => w.value(synth::template_key(t, bytes::words_bytes(w.words))->Some_0),
                    Some(n) => bytes::le_bytes(
                        bytes::low_num(w.value(synth::template_key(t, bytes::words_bytes(w.words))->Some_0)) as int,
                        n as nat,
                    ),
                }
            },
        ),
{
    laws::lemma_template_value(t, w);
    reveal_with_fuel(eval::bytes_value, 4);
    reveal_with_fuel(eval::num_value, 4);
    reveal_with_fuel(eval::bool_value, 4);
}

/* ─────────────── numbers ─────────────── */

proof fn lemma_mask_constants(x: u128)
    by (bit_vector)
    ensures
        x & 0xff == x % 0x100,
        x & 0xffff == x % 0x1_0000,
        x & 0xff_ffff == x % 0x100_0000,
        x & 0xffff_ffff == x % 0x1_0000_0000,
        x & 0xff_ffff_ffff == x % 0x100_0000_0000,
        x & 0xffff_ffff_ffff == x % 0x1_0000_0000_0000,
        x & 0xff_ffff_ffff_ffff == x % 0x100_0000_0000_0000,
        x & 0xffff_ffff_ffff_ffff == x % 0x1_0000_0000_0000_0000,
        x & 0xff_ffff_ffff_ffff_ffff == x % 0x100_0000_0000_0000_0000,
        x & 0xffff_ffff_ffff_ffff_ffff == x % 0x1_0000_0000_0000_0000_0000,
        x & 0xff_ffff_ffff_ffff_ffff_ffff == x % 0x100_0000_0000_0000_0000_0000,
        x & 0xffff_ffff_ffff_ffff_ffff_ffff == x % 0x1_0000_0000_0000_0000_0000_0000,
        x & 0xff_ffff_ffff_ffff_ffff_ffff_ffff == x % 0x100_0000_0000_0000_0000_0000_0000,
        x & 0xffff_ffff_ffff_ffff_ffff_ffff_ffff == x % 0x1_0000_0000_0000_0000_0000_0000_0000,
        x & 0xff_ffff_ffff_ffff_ffff_ffff_ffff_ffff == x % 0x100_0000_0000_0000_0000_0000_0000_0000,
        x & 0xffff_ffff_ffff_ffff_ffff_ffff_ffff_ffff == x,
        1u128 << 8u32 == 0x100,
        1u128 << 16u32 == 0x1_0000,
        1u128 << 24u32 == 0x100_0000,
        1u128 << 32u32 == 0x1_0000_0000,
        1u128 << 40u32 == 0x100_0000_0000,
        1u128 << 48u32 == 0x1_0000_0000_0000,
        1u128 << 56u32 == 0x100_0000_0000_0000,
        1u128 << 64u32 == 0x1_0000_0000_0000_0000,
        1u128 << 72u32 == 0x100_0000_0000_0000_0000,
        1u128 << 80u32 == 0x1_0000_0000_0000_0000_0000,
        1u128 << 88u32 == 0x100_0000_0000_0000_0000_0000,
        1u128 << 96u32 == 0x1_0000_0000_0000_0000_0000_0000,
        1u128 << 104u32 == 0x100_0000_0000_0000_0000_0000_0000,
        1u128 << 112u32 == 0x1_0000_0000_0000_0000_0000_0000_0000,
        1u128 << 120u32 == 0x100_0000_0000_0000_0000_0000_0000_0000,
{
}

/// The mask of a width keeps what so many bytes hold of a number.
pub proof fn lemma_mask(x: u128, width: u8)
    requires
        1 <= width <= 16,
    ensures
        (x & fit::width_mask(width)) as int == x as int % bytes::pow256(width as nat) as int,
{
    lemma_mask_constants(x);
    reveal_with_fuel(bytes::pow256, 17);
    bytes::lemma_pow256_16();
    if width == 1 {
        assert(bytes::pow256(1) == 0x100);
    } else if width == 2 {
        assert(bytes::pow256(2) == 0x1_0000);
    } else if width == 3 {
        assert(bytes::pow256(3) == 0x100_0000);
    } else if width == 4 {
    } else if width == 5 {
        assert(bytes::pow256(5) == 0x100_0000_0000);
    } else if width == 6 {
        assert(bytes::pow256(6) == 0x1_0000_0000_0000);
    } else if width == 7 {
        assert(bytes::pow256(7) == 0x100_0000_0000_0000);
    } else if width == 8 {
    } else if width == 9 {
        assert(bytes::pow256(9) == 0x100_0000_0000_0000_0000);
    } else if width == 10 {
        assert(bytes::pow256(10) == 0x1_0000_0000_0000_0000_0000);
    } else if width == 11 {
        assert(bytes::pow256(11) == 0x100_0000_0000_0000_0000_0000);
    } else if width == 12 {
        assert(bytes::pow256(12) == 0x1_0000_0000_0000_0000_0000_0000);
    } else if width == 13 {
        assert(bytes::pow256(13) == 0x100_0000_0000_0000_0000_0000_0000);
    } else if width == 14 {
        assert(bytes::pow256(14) == 0x1_0000_0000_0000_0000_0000_0000_0000);
    } else if width == 15 {
        assert(bytes::pow256(15) == 0x100_0000_0000_0000_0000_0000_0000_0000);
    } else {
        assert(x as int % 0x1_0000_0000_0000_0000_0000_0000_0000_0000int == x);
    }
}

/// The features of a key set are the number stored under each key, each calldata word
/// and the height, in that order.
pub proof fn lemma_features(set: KeySet, w: World, i: int)
    requires
        set.arg_count <= u32::MAX,
    ensures
        synth::feature_list(set).len() == set.keys.len() + set.arg_count + 1,
        0 <= i < set.keys.len() ==> (synth::template_key(set.keys[i], bytes::words_bytes(w.words)) matches Some(key)
            ==> eval::num_value(synth::feature_list(set)[i].term, w, None) == Ok::<u128, PlanError>(bytes::low_num(w.value(key)))),
        0 <= i < set.arg_count && i < w.words.len() ==> eval::num_value(
            synth::feature_list(set)[set.keys.len() + i].term,
            w,
            None,
        ) == Ok::<u128, PlanError>(w.words[i]),
        eval::num_value(synth::feature_list(set)[(set.keys.len() + set.arg_count) as int].term, w, None) == Ok::<u128, PlanError>(
            w.height as u128,
        ),
{
    reveal_with_fuel(eval::num_value, 2);
    if 0 <= i < set.keys.len() {
        laws::lemma_template_value(set.keys[i], w);
    }
}

/// Whether the outputs are a number, written in `width` bytes.
pub open spec fn writes(samples: Seq<SampleModel>, n: NumTerm, width: u8) -> bool {
    forall|k: int| 0 <= k < samples.len() ==> #[trigger] written(samples[k], n, width)
}

pub open spec fn written(s: SampleModel, n: NumTerm, width: u8) -> bool {
    eval::num_value(n, sample_world(s), None) matches Ok(v) && s.output == bytes::le_bytes(v as int, width as nat)
}

/// Whether every feature has a value on every sample, less than what `width` bytes hold.
pub open spec fn bounded(features: Seq<FeatureModel>, samples: Seq<SampleModel>, width: u8) -> bool {
    forall|i: int, k: int| 0 <= i < features.len() && 0 <= k < samples.len() ==> #[trigger] bounded_at(features[i].term, samples[k], width)
}

pub open spec fn bounded_at(f: NumTerm, s: SampleModel, width: u8) -> bool {
    eval::num_value(f, sample_world(s), None) matches Ok(v) && v < bytes::pow256(width as nat)
}

/// The numeric stages on the features of a key set.
pub open spec fn numbers(set: KeySet, samples: Seq<SampleModel>, width: u8) -> NumberFit {
    NumberFit {
        features: synth::feature_list(set),
        rows: fit::rows_of(synth::feature_list(set), samples, fit::width_mask(width)),
        targets: fit::targets_of(samples, fit::width_mask(width)),
        mask: fit::width_mask(width),
        width,
    }
}

proof fn lemma_written(samples: Seq<SampleModel>, n: NumTerm, width: u8)
    requires
        samples.len() >= 8,
        1 <= width <= 16,
        writes(samples, n, width),
    ensures
        fit::fits(fit::encoded(n, width), samples),
        fit::same_width(samples) == Some(width),
        forall|k: int| 0 <= k < samples.len() ==> #[trigger] fit::targets_of(samples, fit::width_mask(width))[k] == eval::num_value(
            n,
            sample_world(samples[k]),
            None,
        )->Ok_0 & fit::width_mask(width),
{
    assert forall|k: int| 0 <= k < samples.len() implies (#[trigger] samples[k]).output.len() == width by {
        assert(written(samples[k], n, width));
        bytes::lemma_le_bytes_len(eval::num_value(n, sample_world(samples[k]), None)->Ok_0 as int, width as nat);
    }
    assert(samples[0].output.len() == width);
    assert forall|k: int| 0 <= k < samples.len() implies fit::value_on(fit::encoded(n, width), #[trigger] samples[k]) == Ok::<
        Seq<u8>,
        PlanError,
    >(samples[k].output) by {
        assert(written(samples[k], n, width));
        reveal_with_fuel(eval::bytes_value, 2);
    }
    assert forall|k: int| 0 <= k < samples.len() implies #[trigger] fit::targets_of(samples, fit::width_mask(width))[k] == eval::num_value(
        n,
        sample_world(samples[k]),
        None,
    )->Ok_0 & fit::width_mask(width) by {
        assert(written(samples[k], n, width));
        let v = eval::num_value(n, sample_world(samples[k]), None)->Ok_0;
        let p = bytes::pow256(width as nat) as int;
        bytes::lemma_le_num_low(v as int, width as nat);
        bytes::lemma_le_bytes_len(v as int, width as nat);
        bytes::lemma_pow256_16();
        bytes::lemma_pow256_mono(width as nat, 16);
        bytes::lemma_pow256_mono(0, width as nat);
        vstd::arithmetic::div_mod::lemma_mod_bound(v as int, p);
        let low = bytes::low_num(samples[k].output);
        assert(low as int == v as int % p);
        lemma_mask(v, width);
        lemma_mask(low, width);
        vstd::arithmetic::div_mod::lemma_small_mod(low as nat, p as nat);
    }
}

proof fn lemma_rows(set: KeySet, samples: Seq<SampleModel>, width: u8, i: int, k: int)
    requires
        1 <= width <= 16,
        0 <= i < synth::feature_list(set).len(),
        0 <= k < samples.len(),
        bounded(synth::feature_list(set), samples, width),
    ensures
        numbers(set, samples, width).rows[i][k] == eval::num_value(synth::feature_list(set)[i].term, sample_world(samples[k]), None)->Ok_0,
        eval::num_value(synth::feature_list(set)[i].term, sample_world(samples[k]), None) is Ok,
        fit::feature_on(synth::feature_list(set)[i].term, samples[k]) is Ok,
{
    let f = synth::feature_list(set)[i].term;
    assert(bounded_at(f, samples[k], width));
    let v = eval::num_value(f, sample_world(samples[k]), None)->Ok_0;
    lemma_mask(v, width);
    vstd::arithmetic::div_mod::lemma_small_mod(v as nat, bytes::pow256(width as nat));
}

proof fn lemma_all_valued(set: KeySet, samples: Seq<SampleModel>, width: u8)
    requires
        1 <= width <= 16,
        bounded(synth::feature_list(set), samples, width),
    ensures
        fit::all_have_values(synth::feature_list(set), samples),
{
    let features = synth::feature_list(set);
    assert forall|i: int| 0 <= i < features.len() implies fit::has_values((#[trigger] features[i]).term, samples) by {
        assert forall|k: int| 0 <= k < samples.len() implies fit::feature_on(features[i].term, #[trigger] samples[k]) is Ok by {
            lemma_rows(set, samples, width, i, k);
        }
    }
}

/// A method that gives one feature as a number is fitted.
pub proof fn lemma_feature_fitted(set: KeySet, samples: Seq<SampleModel>, width: u8, i: int)
    requires
        samples.len() >= 8,
        1 <= width <= 16,
        0 <= i < synth::feature_list(set).len(),
        fit::all_have_values(synth::feature_list(set), samples),
        writes(samples, synth::feature_list(set)[i].term, width),
    ensures
        fit::fitted(set, samples) is Some,
{
    let nf = numbers(set, samples, width);
    let f = nf.features[i].term;
    lemma_written(samples, f, width);
    assert(fit::has_values(f, samples));
    assert forall|k: int| 0 <= k < samples.len() implies #[trigger] nf.rows[i][k] == nf.targets[k] by {
        assert(written(samples[k], f, width));
    }
    assert(nf.rows[i] =~= nf.targets);
    lemma_first_found(fit::identity_candidates(nf), samples, 0, i, fit::encoded(f, width));
    assert(fit::fitted_number(nf, samples) is Some);
}

proof fn lemma_pair_found(nf: NumberFit, samples: Seq<SampleModel>, a: nat, b: nat, i: nat, j: nat)
    requires
        a < i || (a == i && b <= j),
        i < nf.features.len(),
        j < nf.features.len(),
        fit::first_fitting(fit::pair_candidates(nf, i as int, j as int), samples, 0) is Some,
    ensures
        fit::first_pair(nf, samples, a, b) is Some,
    decreases nf.features.len() - a, nf.features.len() - b,
{
    if b >= nf.features.len() {
        lemma_pair_found(nf, samples, a + 1, 0, i, j);
    } else if !(a == i && b == j) {
        if fit::first_fitting(fit::pair_candidates(nf, a as int, b as int), samples, 0) is None {
            lemma_pair_found(nf, samples, a, b + 1, i, j);
        }
    }
}

/// A method that gives the sum, the difference or the product of two features is fitted,
/// if no feature is larger than the output holds.
pub proof fn lemma_pair_fitted(set: KeySet, samples: Seq<SampleModel>, width: u8, i: int, j: int, op: NumOp)
    requires
        samples.len() >= 8,
        1 <= width <= 16,
        0 <= i < synth::feature_list(set).len(),
        0 <= j < synth::feature_list(set).len(),
        i != j,
        op is Add || op is Sub || op is Mul,
        bounded(synth::feature_list(set), samples, width),
        writes(samples, term::op_term(op, synth::feature_list(set)[i].term, synth::feature_list(set)[j].term), width),
    ensures
        fit::fitted(set, samples) is Some,
{
    let nf = numbers(set, samples, width);
    let n = term::op_term(op, nf.features[i].term, nf.features[j].term);
    lemma_written(samples, n, width);
    lemma_all_valued(set, samples, width);
    let c: int = if op is Add { 0 } else if op is Sub { 1 } else { 2 };
    assert(fit::pair_op(c) == op);
    assert forall|k: int| 0 <= k < nf.targets.len() implies eval::num_op(fit::pair_op(c), nf.rows[i][k], nf.rows[j][k]) & nf.mask
        == #[trigger] nf.targets[k] by {
        lemma_rows(set, samples, width, i, k);
        lemma_rows(set, samples, width, j, k);
        assert(written(samples[k], n, width));
        reveal_with_fuel(eval::num_value, 2);
        assert(eval::num_value(n, sample_world(samples[k]), None)->Ok_0 == eval::num_op(op, nf.rows[i][k], nf.rows[j][k]));
    }
    assert(fit::pair_candidates(nf, i, j)[c] == Some(fit::encoded(n, width)));
    lemma_first_found(fit::pair_candidates(nf, i, j), samples, 0, c, fit::encoded(n, width));
    lemma_pair_found(nf, samples, 0, 0, i as nat, j as nat);
    assert(fit::fitted_number(nf, samples) is Some);
}

proof fn lemma_sum_value(set: KeySet, samples: Seq<SampleModel>, width: u8, n: nat, k: int)
    requires
        1 <= width <= 16,
        1 <= n <= synth::feature_list(set).len(),
        0 <= k < samples.len(),
        bounded(synth::feature_list(set), samples, width),
    ensures
        eval::num_value(fit::sum_term(synth::feature_list(set), n), sample_world(samples[k]), None) == Ok::<u128, PlanError>(
            fit::row_sum(numbers(set, samples, width).rows, n, k),
        ),
    decreases n,
{
    lemma_rows(set, samples, width, n - 1, k);
    reveal_with_fuel(fit::row_sum, 2);
    reveal_with_fuel(eval::num_value, 2);
    if n > 1 {
        lemma_sum_value(set, samples, width, (n - 1) as nat, k);
    }
}

/// A method that gives the sum of all features, or that sum divided by two, three or
/// four, is fitted, if no feature is larger than the output holds.
pub proof fn lemma_sum_fitted(set: KeySet, samples: Seq<SampleModel>, width: u8, d: u128)
    requires
        samples.len() >= 8,
        1 <= width <= 16,
        1 <= d <= 4,
        bounded(synth::feature_list(set), samples, width),
        writes(
            samples,
            term::op_term(NumOp::Div, fit::sum_term(synth::feature_list(set), synth::feature_list(set).len()), NumTerm::Const(d)),
            width,
        ),
    ensures
        fit::fitted(set, samples) is Some,
{
    let nf = numbers(set, samples, width);
    let all = nf.features.len();
    let sum = fit::sum_term(nf.features, all);
    let n = term::op_term(NumOp::Div, sum, NumTerm::Const(d));
    lemma_written(samples, n, width);
    lemma_all_valued(set, samples, width);
    assert(all >= 1);
    assert forall|k: int| 0 <= k < samples.len() implies eval::num_value(n, #[trigger] sample_world(samples[k]), None) == Ok::<
        u128,
        PlanError,
    >(fit::row_sum(nf.rows, all, k) / d) && eval::num_value(sum, sample_world(samples[k]), None) == Ok::<u128, PlanError>(
        fit::row_sum(nf.rows, all, k),
    ) by {
        lemma_sum_value(set, samples, width, all, k);
        reveal_with_fuel(eval::num_value, 2);
    }
    assert forall|k: int| 0 <= k < nf.targets.len() implies (fit::row_sum(nf.rows, nf.rows.len(), k) / d) & nf.mask
        == #[trigger] nf.targets[k] by {
        assert(written(samples[k], n, width));
        let w = sample_world(samples[k]);
    }
    let e = if d == 1 { sum } else { n };
    if d == 1 {
        assert forall|k: int| 0 <= k < samples.len() implies #[trigger] written(samples[k], sum, width) by {
            assert(written(samples[k], n, width));
            let w = sample_world(samples[k]);
        }
        lemma_written(samples, sum, width);
    }
    assert(fit::sum_candidates(nf)[d - 1] == Some(fit::encoded(e, width)));
    lemma_first_found(fit::sum_candidates(nf), samples, 0, d - 1, fit::encoded(e, width));
    assert(fit::fitted_number(nf, samples) is Some);
}

/// A line through the samples has a slope between one and a million, is not the identity,
/// and goes through every one of them, modulo what the mask keeps.
pub proof fn lemma_affine(xs: Seq<u128>, ys: Seq<u128>, mask: u128, k: int)
    ensures
        fit::affine(xs, ys, mask) matches Some((a, b)) ==> {
            &&& 1 <= a <= 1_000_000
            &&& !(a == 1 && b == 0)
            &&& 0 <= k < xs.len() ==> xs[k].wrapping_mul(a).wrapping_add(b) & mask == ys[k]
        },
        (forall|i: int| 0 <= i < xs.len() ==> #[trigger] xs[i] == xs[0]) ==> fit::affine(xs, ys, mask) is None,
{
    if forall|i: int| 0 <= i < xs.len() ==> #[trigger] xs[i] == xs[0] {
        lemma_no_other(xs, 0);
    }
}

proof fn lemma_no_other(xs: Seq<u128>, from: nat)
    requires
        forall|i: int| 0 <= i < xs.len() ==> #[trigger] xs[i] == xs[0],
    ensures
        fit::first_other(xs, from) is None,
    decreases xs.len() - from,
{
    if from < xs.len() {
        assert(xs[from as int] == xs[0]);
        lemma_no_other(xs, from + 1);
    }
}

proof fn lemma_pow256_splits(a: nat, b: nat)
    ensures
        bytes::pow256(a + b) == bytes::pow256(a) * bytes::pow256(b),
    decreases a,
{
    if a > 0 {
        lemma_pow256_splits((a - 1) as nat, b);
        let x = bytes::pow256((a - 1) as nat);
        let y = bytes::pow256(b);
        assert(256 * (x * y) == (256 * x) * y) by (nonlinear_arith);
    } else {
        assert(1 * bytes::pow256(b) == bytes::pow256(b));
    }
}

/// A number reduced to 128 bits and masked is the number reduced to the width.
pub proof fn lemma_wrapped(n: int, x: u128, width: u8)
    requires
        1 <= width <= 16,
        x as int == n % 0x1_0000_0000_0000_0000_0000_0000_0000_0000int,
    ensures
        (x & fit::width_mask(width)) as int == n % bytes::pow256(width as nat) as int,
{
    let p = bytes::pow256(width as nat) as int;
    let q = bytes::pow256((16 - width) as nat) as int;
    lemma_pow256_splits(width as nat, (16 - width) as nat);
    bytes::lemma_pow256_16();
    bytes::lemma_pow256_mono(0, width as nat);
    bytes::lemma_pow256_mono(0, (16 - width) as nat);
    lemma_mask(x, width);
    vstd::arithmetic::div_mod::lemma_mod_mod(n, p, q);
}

proof fn lemma_other_found(xs: Seq<u128>, from: nat, i: int)
    requires
        from <= i < xs.len(),
        xs[i] != xs[0],
    ensures
        fit::first_other(xs, from) matches Some(j) && from <= j < xs.len() && xs[j] != xs[0],
    decreases i - from,
{
    if xs[from as int] == xs[0] {
        lemma_other_found(xs, from + 1, i);
    }
}

/// The line that the samples lie on is found, whatever its slope and offset, where the
/// products stay within the width: if `y` is `a * x + b` modulo what `width` bytes hold
/// in every sample, and two of them have different `x`, the line is `(a, b)`.
pub proof fn lemma_affine_found(xs: Seq<u128>, ys: Seq<u128>, width: u8, a: u128, b: u128, i: int)
    requires
        1 <= width <= 16,
        xs.len() <= ys.len(),
        0 <= i < xs.len(),
        xs[i] != xs[0],
        1 <= a <= 1_000_000,
        b < bytes::pow256(width as nat),
        !(a == 1 && b == 0),
        forall|k: int| 0 <= k < xs.len() ==> a * #[trigger] xs[k] < bytes::pow256(width as nat),
        forall|k: int| 0 <= k < xs.len() ==> #[trigger] ys[k] as int == (a * xs[k] + b) % (bytes::pow256(width as nat) as int),
    ensures
        fit::affine(xs, ys, fit::width_mask(width)) == Some((a, b)),
{
    lemma_other_found(xs, 0, i);
    let mask = fit::width_mask(width);
    let j = fit::first_other(xs, 0)->Some_0;
    let (h, l): (int, int) = if xs[0] > xs[j] { (0, j) } else { (j, 0) };
    assert(a * xs[h] < bytes::pow256(width as nat) && a * xs[l] < bytes::pow256(width as nat));
    assert(ys[h] as int == (a * xs[h] + b) % (bytes::pow256(width as nat) as int));
    assert(ys[l] as int == (a * xs[l] + b) % (bytes::pow256(width as nat) as int));
    lemma_slope(xs[h], xs[l], ys[h], ys[l], width, a, b);
    assert(a * xs[0] < bytes::pow256(width as nat));
    assert(ys[0] as int == (a * xs[0] + b) % (bytes::pow256(width as nat) as int));
    lemma_offset(xs[0], ys[0], width, a, b);
    assert forall|k: int| 0 <= k < xs.len() implies (#[trigger] xs[k]).wrapping_mul(a).wrapping_add(b) & mask == ys[k] by {
        assert(a * xs[k] < bytes::pow256(width as nat));
        assert(ys[k] as int == (a * xs[k] + b) % (bytes::pow256(width as nat) as int));
        lemma_on_line(xs[k], ys[k], width, a, b);
    }
}

proof fn lemma_slope(xh: u128, xl: u128, yh: u128, yl: u128, width: u8, a: u128, b: u128)
    requires
        1 <= width <= 16,
        xh > xl,
        a * xh < bytes::pow256(width as nat),
        yh as int == (a * xh + b) % (bytes::pow256(width as nat) as int),
        yl as int == (a * xl + b) % (bytes::pow256(width as nat) as int),
    ensures
        (yh.wrapping_sub(yl) & fit::width_mask(width)) / ((xh - xl) as u128) == a,
        (yh.wrapping_sub(yl) & fit::width_mask(width)) % ((xh - xl) as u128) == 0,
{
    let p = bytes::pow256(width as nat) as int;
    let dx = (xh - xl) as u128;
    bytes::lemma_pow256_mono(0, width as nat);
    lemma_wrapped(yh - yl, yh.wrapping_sub(yl), width);
    vstd::arithmetic::div_mod::lemma_sub_mod_noop(a * xh + b, a * xl + b, p);
    assert(a * xh - a * xl == a * dx) by (nonlinear_arith)
        requires
            dx == xh - xl,
    ;
    assert(0 <= a * dx && 0 <= a * xl) by (nonlinear_arith);
    vstd::arithmetic::div_mod::lemma_small_mod((a * dx) as nat, p as nat);
    let dy = yh.wrapping_sub(yl) & fit::width_mask(width);
    assert(dy == a * dx);
    vstd::arithmetic::div_mod::lemma_div_multiples_vanish(a as int, dx as int);
    vstd::arithmetic::div_mod::lemma_mod_multiples_basic(a as int, dx as int);
    assert(dx as int * a as int == a as int * dx as int) by (nonlinear_arith);
}

proof fn lemma_offset(x: u128, y: u128, width: u8, a: u128, b: u128)
    requires
        1 <= width <= 16,
        a * x < bytes::pow256(width as nat),
        b < bytes::pow256(width as nat),
        y as int == (a * x + b) % (bytes::pow256(width as nat) as int),
    ensures
        y.wrapping_sub(a.wrapping_mul(x)) & fit::width_mask(width) == b,
{
    let p = bytes::pow256(width as nat) as int;
    bytes::lemma_pow256_16();
    bytes::lemma_pow256_mono(width as nat, 16);
    bytes::lemma_pow256_mono(0, width as nat);
    assert(0 <= a * x) by (nonlinear_arith);
    assert(a.wrapping_mul(x) == a * x);
    lemma_wrapped(y - a * x, y.wrapping_sub(a.wrapping_mul(x)), width);
    vstd::arithmetic::div_mod::lemma_small_mod((a * x) as nat, p as nat);
    vstd::arithmetic::div_mod::lemma_sub_mod_noop(a * x + b, a * x, p);
    vstd::arithmetic::div_mod::lemma_small_mod(b as nat, p as nat);
}

proof fn lemma_on_line(x: u128, y: u128, width: u8, a: u128, b: u128)
    requires
        1 <= width <= 16,
        a * x < bytes::pow256(width as nat),
        y as int == (a * x + b) % (bytes::pow256(width as nat) as int),
    ensures
        x.wrapping_mul(a).wrapping_add(b) & fit::width_mask(width) == y,
{
    lemma_line_value(x, width, a, b);
}

/// A method that gives a feature times a slope, plus an offset, is fitted, where the
/// products stay within the width and two samples differ in the feature.
pub proof fn lemma_affine_fitted(set: KeySet, samples: Seq<SampleModel>, width: u8, i: int, a: u128, b: u128, m: int)
    requires
        samples.len() >= 8,
        1 <= width <= 16,
        0 <= i < synth::feature_list(set).len(),
        bounded(synth::feature_list(set), samples, width),
        1 <= a <= 1_000_000,
        b < bytes::pow256(width as nat),
        !(a == 1 && b == 0),
        writes(samples, line_term(synth::feature_list(set)[i].term, a, b), width),
        forall|k: int| 0 <= k < samples.len() ==> a * (eval::num_value(
            synth::feature_list(set)[i].term,
            #[trigger] sample_world(samples[k]),
            None,
        )->Ok_0) < bytes::pow256(width as nat),
        0 <= m < samples.len(),
        eval::num_value(synth::feature_list(set)[i].term, sample_world(samples[m]), None) != eval::num_value(
            synth::feature_list(set)[i].term,
            sample_world(samples[0]),
            None,
        ),
    ensures
        fit::fitted(set, samples) is Some,
{
    let nf = numbers(set, samples, width);
    let f = nf.features[i].term;
    let got = fit::affine_term(f, a, b);
    let n = line_term(f, a, b);
    lemma_written(samples, n, width);
    lemma_all_valued(set, samples, width);
    let xs = nf.rows[i];
    let ys = nf.targets;
    assert forall|k: int| 0 <= k < samples.len() implies #[trigger] on_line(xs[k], ys[k], width, a, b) && written(samples[k], got, width) by {
        let w = sample_world(samples[k]);
        lemma_affine_sample(set, samples, width, i, a, b, k);
    }
    assert forall|k: int| 0 <= k < xs.len() implies a * #[trigger] xs[k] < bytes::pow256(width as nat) by {
        assert(on_line(xs[k], ys[k], width, a, b));
    }
    assert forall|k: int| 0 <= k < xs.len() implies #[trigger] ys[k] as int == (a * xs[k] + b) % (bytes::pow256(width as nat) as int) by {
        assert(on_line(xs[k], ys[k], width, a, b));
    }
    lemma_rows(set, samples, width, i, m);
    lemma_rows(set, samples, width, i, 0);
    lemma_affine_found(xs, ys, width, a, b, m);
    assert forall|k: int| 0 <= k < samples.len() implies #[trigger] written(samples[k], got, width) by {
        assert(on_line(xs[k], ys[k], width, a, b));
    }
    lemma_written(samples, got, width);
    assert(fit::affine_candidates(nf)[i] == Some(fit::encoded(got, width)));
    lemma_first_found(fit::affine_candidates(nf), samples, 0, i, fit::encoded(got, width));
    assert(fit::fitted_number(nf, samples) is Some);
}

/// A feature times a slope, plus an offset.
pub open spec fn line_term(f: NumTerm, a: u128, b: u128) -> NumTerm {
    term::op_term(NumOp::Add, term::op_term(NumOp::Mul, f, NumTerm::Const(a)), NumTerm::Const(b))
}

/// Whether a point is on a line, modulo what `width` bytes hold.
pub open spec fn on_line(x: u128, y: u128, width: u8, a: u128, b: u128) -> bool {
    &&& a * x < bytes::pow256(width as nat)
    &&& y as int == (a * x + b) % (bytes::pow256(width as nat) as int)
}

proof fn lemma_affine_sample(set: KeySet, samples: Seq<SampleModel>, width: u8, i: int, a: u128, b: u128, k: int)
    requires
        samples.len() >= 8,
        1 <= width <= 16,
        0 <= i < synth::feature_list(set).len(),
        0 <= k < samples.len(),
        bounded(synth::feature_list(set), samples, width),
        writes(samples, line_term(synth::feature_list(set)[i].term, a, b), width),
        a * (eval::num_value(synth::feature_list(set)[i].term, sample_world(samples[k]), None)->Ok_0) < bytes::pow256(width as nat),
    ensures
        on_line(numbers(set, samples, width).rows[i][k], numbers(set, samples, width).targets[k], width, a, b),
        written(samples[k], fit::affine_term(synth::feature_list(set)[i].term, a, b), width),
{
    let f = synth::feature_list(set)[i].term;
    let x = numbers(set, samples, width).rows[i][k];
    lemma_rows(set, samples, width, i, k);
    lemma_written(samples, line_term(f, a, b), width);
    assert(written(samples[k], line_term(f, a, b), width));
    lemma_affine_value(f, a, b, sample_world(samples[k]), x);
    lemma_line_value(x, width, a, b);
    assert(numbers(set, samples, width).targets[k] == fit::targets_of(samples, fit::width_mask(width))[k]);
}

proof fn lemma_line_value(x: u128, width: u8, a: u128, b: u128)
    requires
        1 <= width <= 16,
        a * x < bytes::pow256(width as nat),
    ensures
        (x.wrapping_mul(a).wrapping_add(b) & fit::width_mask(width)) as int == (a * x + b) % (bytes::pow256(width as nat) as int),
{
    bytes::lemma_pow256_16();
    bytes::lemma_pow256_mono(width as nat, 16);
    assert(0 <= x * a && x * a == a * x) by (nonlinear_arith);
    assert(x.wrapping_mul(a) == a * x);
    lemma_wrapped(a * x + b, x.wrapping_mul(a).wrapping_add(b), width);
}

proof fn lemma_affine_value(f: NumTerm, a: u128, b: u128, w: World, x: u128)
    requires
        eval::num_value(f, w, None) == Ok::<u128, PlanError>(x),
    ensures
        eval::num_value(line_term(f, a, b), w, None) == Ok::<u128, PlanError>(x.wrapping_mul(a).wrapping_add(b)),
        eval::num_value(fit::affine_term(f, a, b), w, None) == Ok::<u128, PlanError>(x.wrapping_mul(a).wrapping_add(b)),
{
    reveal_with_fuel(eval::num_value, 3);
    assert(x * 1 == x);
}

} // verus!
