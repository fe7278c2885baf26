//! Value fitting: given a key model, collect (inputs, output) samples by
//! probing, and search a template library for a BytesExpr that reproduces the
//! output. Ordered most-specific first; the first candidate that fits every
//! sample is handed to the verifier.
//!
//! Correctness note: candidate discovery may use masked/approximate numeric
//! reasoning, but every candidate is gated by `fits_all`, an exact byte
//! comparison of the fully-evaluated expression against the wasm's output on
//! every sample, before it is returned. Final soundness comes from
//! `verify::verify` on fresh randomized oracles (which include empty-key cases).
use vstd::prelude::*;
use crate::analysis::host::{Oracle, OracleModel, Outcome, OutcomeModel, Prober, ProberModel};
use crate::analysis::synth;
use crate::analysis::synth::{stored_expr, Feature, FeatureModel, KeyModel, KeySet, KeyShape, KeyTemplate, Rng};
use crate::analysis::verify;
use crate::analysis::verify::{concrete_key, random_case, OracleEnv, ValueDist};
use crate::bytes;
use crate::bytes::{copy_bytes, decode_le, encode_le, flatten_words, same_bytes, stored_value};
use crate::plan::{eval, term};
use crate::plan::{eval_bytes, eval_num, BoolExpr, BytesExpr, BytesTerm, Comparison, NumExpr, NumOp, NumTerm, PlanError};

verus! {

broadcast use term::group_list_terms;

/// A successful run: its world, its arguments, and what it gave.
pub struct Sample {
    pub oracle: Oracle,
    pub args: Vec<u128>,
    pub output: Vec<u8>,
}

/// What a [`Sample`] is.
pub ghost struct SampleModel {
    pub oracle: OracleModel,
    pub args: Seq<u128>,
    pub output: Seq<u8>,
}

impl Sample {
    pub open spec fn model(self) -> SampleModel {
        SampleModel { oracle: self.oracle.model(), args: self.args@, output: self.output@ }
    }
}

pub open spec fn sample_models(samples: Seq<Sample>) -> Seq<SampleModel> {
    Seq::new(samples.len(), |i: int| samples[i].model())
}

/* ─────────────── sampling ─────────────── */

/// The seed of the samples of a distribution.
pub open spec fn sample_seed(opcode: u128, dist: ValueDist) -> u64 {
    0x5A34D0u64 ^ (opcode as u64) ^ (match dist {
        ValueDist::Integer => 0u64,
        ValueDist::Stringy => 0x1_0000_0000_0000u64,
    })
}

/// The generator's state and the samples after `k` attempts, which stop at `n`
/// samples.
pub open spec fn sampled(p: ProberModel, opcode: u128, set: KeySet, dist: ValueDist, n: nat, k: nat) -> (u64, Seq<SampleModel>)
    decreases k,
{
    if k == 0 {
        (sample_seed(opcode, dist), Seq::empty())
    } else {
        let (s, got) = sampled(p, opcode, set, dist, n, (k - 1) as nat);
        if got.len() >= n {
            (s, got)
        } else {
            let c = verify::draw_case(set, s, dist);
            match p.outcome(opcode, c.args, c.oracle) {
                Ok(run) => match run.outcome {
                    OutcomeModel::Success(output) => (c.state, got.push(SampleModel { oracle: c.oracle, args: c.args, output })),
                    _ => (c.state, got),
                },
                Err(_) => (c.state, got),
            }
        }
    }
}

/// The samples that fitting goes by: at most 40, of at most 400 attempts.
pub open spec fn samples_of(p: ProberModel, opcode: u128, set: KeySet, dist: ValueDist) -> Seq<SampleModel> {
    sampled(p, opcode, set, dist, 40, 400).1
}

proof fn lemma_sampled_full(p: ProberModel, opcode: u128, set: KeySet, dist: ValueDist, n: nat, k: nat, m: nat)
    requires
        k <= m,
        sampled(p, opcode, set, dist, n, k).1.len() >= n,
    ensures
        sampled(p, opcode, set, dist, n, m) == sampled(p, opcode, set, dist, n, k),
    decreases m,
{
    if k < m {
        lemma_sampled_full(p, opcode, set, dist, n, k, (m - 1) as nat);
    }
}

/// Whether any attempt at a sample that fitting may make succeeds.
pub open spec fn answers(p: ProberModel, opcode: u128, set: KeySet, dist: ValueDist) -> bool {
    sampled(p, opcode, set, dist, 1, 400).1.len() > 0
}

proof fn lemma_none_sampled(p: ProberModel, opcode: u128, set: KeySet, dist: ValueDist, k: nat)
    requires
        sampled(p, opcode, set, dist, 1, k).1.len() == 0,
    ensures
        sampled(p, opcode, set, dist, 40, k) == sampled(p, opcode, set, dist, 1, k),
    decreases k,
{
    if k > 0 {
        lemma_none_sampled(p, opcode, set, dist, (k - 1) as nat);
    }
}

/// Nothing fits a method of which no attempt at a sample succeeds.
pub proof fn lemma_silent_fits_nothing(p: ProberModel, opcode: u128, set: KeySet, dist: ValueDist)
    requires
        !answers(p, opcode, set, dist),
    ensures
        fitted(set, samples_of(p, opcode, set, dist)) is None,
{
    lemma_none_sampled(p, opcode, set, dist, 400);
}

/// At most `n` successful samples, of at most `limit` attempts.
fn draw_samples(prober: &Prober, opcode: u128, model: &KeyModel, n: usize, limit: usize, dist: ValueDist) -> (r: Vec<Sample>)
    ensures
        sample_models(r@) == sampled(prober.model(), opcode, model.set(), dist, n as nat, limit as nat).1,
{
    let mut rng = Rng::new(0x5A34D0u64 ^ (opcode as u64) ^ (match dist {
        ValueDist::Integer => 0u64,
        ValueDist::Stringy => 0x1_0000_0000_0000u64,
    }));
    let mut samples: Vec<Sample> = Vec::new();
    assert(sample_models(samples@) =~= Seq::empty());
    let mut attempts: usize = 0;
    while samples.len() < n && attempts < limit
        invariant
            attempts <= limit,
            sampled(prober.model(), opcode, model.set(), dist, n as nat, attempts as nat) == (rng.state(), sample_models(samples@)),
        decreases limit - attempts,
    {
        attempts = attempts + 1;
        let ghost before = sample_models(samples@);
        let (oracle, args) = random_case(model, &mut rng, dist);
        if let Ok(run) = prober.run(opcode, args.as_slice(), &oracle) {
            if let Outcome::Success(output) = run.outcome {
                let sample = Sample { oracle, args, output };
                samples.push(sample);
                assert(sample_models(samples@) =~= before.push(sample.model()));
            }
        }
    }
    proof {
        assert(sample_models(samples@).len() == samples@.len());
        if samples@.len() >= n {
            lemma_sampled_full(prober.model(), opcode, model.set(), dist, n as nat, attempts as nat, limit as nat);
        }
    }
    samples
}

/// Collect successful samples with values drawn from `dist` (empty keys
/// included), random height and calldata.
pub fn collect_samples(prober: &Prober, opcode: u128, model: &KeyModel, n: usize, dist: ValueDist) -> (r: Vec<Sample>)
    requires
        10 * n <= usize::MAX,
    ensures
        sample_models(r@) == sampled(prober.model(), opcode, model.set(), dist, n as nat, (10 * n) as nat).1,
{
    draw_samples(prober, opcode, model, n, 10 * n, dist)
}

/// Whether the method ever succeeds where it is sampled.
pub(crate) fn ever_answers(prober: &Prober, opcode: u128, model: &KeyModel, dist: ValueDist) -> (r: bool)
    ensures
        r == answers(prober.model(), opcode, model.set(), dist),
{
    let samples = draw_samples(prober, opcode, model, 1, 400, dist);
    assert(sample_models(samples@).len() == samples@.len());
    samples.len() > 0
}

/* ─────────────── candidates ─────────────── */

/// What an expression gives on a sample.
pub open spec fn value_on(e: BytesTerm, s: SampleModel) -> Result<Seq<u8>, PlanError> {
    eval::bytes_value(e, verify::world_of(s.oracle, s.args), None)
}

/// Whether an expression gives the output of every sample.
pub open spec fn fits(e: BytesTerm, samples: Seq<SampleModel>) -> bool {
    forall|i: int| 0 <= i < samples.len() ==> value_on(e, #[trigger] samples[i]) == Ok::<Seq<u8>, PlanError>(samples[i].output)
}

pub fn fits_all(expr: &BytesExpr, samples: &Vec<Sample>) -> (r: bool)
    ensures
        r == fits(expr.term(), sample_models(samples@)),
{
    let ghost models = sample_models(samples@);
    let n: usize = samples.len();
    for i in 0..n
        invariant
            n == samples@.len(),
            models == sample_models(samples@),
            forall|j: int| 0 <= j < i ==> value_on(expr.term(), #[trigger] models[j]) == Ok::<Seq<u8>, PlanError>(models[j].output),
    {
        assert(models[i as int] == samples@[i as int].model());
        let mut env = OracleEnv::new(&samples[i].oracle, samples[i].args.as_slice());
        match eval_bytes(expr, &mut env, None) {
            Ok(got) => {
                if !same_bytes(got.as_slice(), samples[i].output.as_slice()) {
                    return false;
                }
            }
            Err(_) => {
                return false;
            }
        }
    }
    true
}

/// The first candidate that fits, from a place on.
pub open spec fn first_fitting(candidates: Seq<Option<BytesTerm>>, samples: Seq<SampleModel>, from: nat) -> Option<BytesTerm>
    decreases candidates.len() - from,
{
    if from >= candidates.len() {
        None
    } else {
        match candidates[from as int] {
            Some(e) => if fits(e, samples) {
                Some(e)
            } else {
                first_fitting(candidates, samples, from + 1)
            },
            None => first_fitting(candidates, samples, from + 1),
        }
    }
}

/// Whether a result is the one meant.
pub open spec fn found(r: Option<BytesExpr>, t: Option<BytesTerm>) -> bool {
    match r {
        Some(e) => t == Some(e.term()),
        None => t is None,
    }
}

/// The candidate, if it fits.
fn checked(expr: Option<BytesExpr>, samples: &Vec<Sample>) -> (r: Option<BytesExpr>)
    ensures
        match r {
            Some(e) => expr matches Some(x) && x.term() == e.term() && fits(e.term(), sample_models(samples@)),
            None => expr matches Some(x) ==> !fits(x.term(), sample_models(samples@)),
        },
{
    match expr {
        Some(e) => if fits_all(&e, samples) {
            Some(e)
        } else {
            None
        },
        None => None,
    }
}

/* ─────────────── passthrough ─────────────── */

/// What a sample's storage holds at a key.
pub open spec fn stored_in(t: KeyTemplate, s: SampleModel) -> Seq<u8> {
    match synth::template_key(t, bytes::words_bytes(s.args)) {
        Some(k) => bytes::value_at(s.oracle.storage, k),
        None => Seq::empty(),
    }
}

fn key_bytes(key: &KeyShape, sample: &Sample) -> (r: Vec<u8>)
    ensures
        r@ == stored_in(key.template(), sample.model()),
{
    let calldata = flatten_words(sample.args.as_slice());
    match concrete_key(key, calldata.as_slice()) {
        Some(k) => stored_value(&sample.oracle.storage, k.as_slice()),
        None => Vec::new(),
    }
}

/// The output of the first sample in which a key is unset.
pub open spec fn unset_output(t: KeyTemplate, samples: Seq<SampleModel>) -> Option<Seq<u8>>
    decreases samples.len(),
{
    if samples.len() == 0 {
        None
    } else {
        match unset_output(t, samples.drop_last()) {
            Some(d) => Some(d),
            None => if stored_in(t, samples.last()).len() == 0 {
                Some(samples.last().output)
            } else {
                None
            },
        }
    }
}

/// What a set key gives: its bytes, or the number in them at a width.
pub open spec fn set_output(value: Seq<u8>, width: Option<u8>) -> Seq<u8> {
    match width {
        None => value,
        Some(w) => bytes::le_bytes(bytes::low_num(value) as int, w as nat),
    }
}

/// Whether the samples give what a set key gives, and one default where it is unset.
/// Both must have been seen.
pub open spec fn gives_default(t: KeyTemplate, samples: Seq<SampleModel>, width: Option<u8>, d: Seq<u8>) -> bool {
    &&& forall|i: int| 0 <= i < samples.len() ==> (#[trigger] samples[i]).output == if stored_in(t, samples[i]).len() == 0 {
        d
    } else {
        set_output(stored_in(t, samples[i]), width)
    }
    &&& exists|i: int| 0 <= i < samples.len() && stored_in(t, #[trigger] samples[i]).len() > 0
}

/// `if len(storage(key)) > 0 then storage(key) else CONST`, or with the number stored,
/// encoded at a width.
pub open spec fn default_term(t: KeyTemplate, width: Option<u8>, d: Seq<u8>) -> BytesTerm {
    BytesTerm::If {
        cond: Box::new(
            term::holds_term(Comparison::Gt, NumTerm::Len(Box::new(synth::stored_term(t))), NumTerm::Const(0)),
        ),
        if_true: Box::new(
            match width {
                None => synth::stored_term(t),
                Some(w) => BytesTerm::Le { of: Box::new(NumTerm::ULe(Box::new(synth::stored_term(t)))), width: w },
            },
        ),
        if_false: Box::new(BytesTerm::Const(d)),
    }
}

/// The passthrough with a default that the samples show.
pub open spec fn default_candidate(t: KeyTemplate, samples: Seq<SampleModel>, width: Option<u8>) -> Option<BytesTerm> {
    match unset_output(t, samples) {
        None => None,
        Some(d) => if gives_default(t, samples, width, d) {
            Some(default_term(t, width, d))
        } else {
            None
        },
    }
}

fn default_expr(key: &KeyShape, width: Option<u8>, default: Vec<u8>) -> (r: BytesExpr)
    ensures
        r.term() == default_term(key.template(), width, default@),
{
    // guard on the length of the stored VALUE, not the key
    let zero = NumExpr::Const(0);
    assert(zero.term() == NumTerm::Const(0));
    let len = NumExpr::Len(Box::new(stored_expr(key)));
    assert(len.term() == NumTerm::Len(Box::new(synth::stored_term(key.template()))));
    let cond = BoolExpr::Gt(Box::new(len), Box::new(zero));
    assert(cond.term() == term::holds_term(
        Comparison::Gt,
        NumTerm::Len(Box::new(synth::stored_term(key.template()))),
        NumTerm::Const(0),
    ));
    let if_true = match width {
        None => stored_expr(key),
        Some(w) => {
            let of = NumExpr::ULe(Box::new(stored_expr(key)));
            assert(of.term() == NumTerm::ULe(Box::new(synth::stored_term(key.template()))));
            BytesExpr::Le { of: Box::new(of), width: w }
        }
    };
    let if_false = BytesExpr::Const(default);
    assert(if_false.term() == BytesTerm::Const(default@));
    BytesExpr::If { cond: Box::new(cond), if_true: Box::new(if_true), if_false: Box::new(if_false) }
}

proof fn lemma_unset_take(t: KeyTemplate, samples: Seq<SampleModel>, k: int)
    requires
        0 <= k <= samples.len(),
    ensures
        unset_output(t, samples.take(k)) is Some ==> unset_output(t, samples) == unset_output(t, samples.take(k)),
    decreases samples.len() - k,
{
    if k < samples.len() {
        lemma_unset_take(t, samples, k + 1);
        assert(samples.take(k + 1).drop_last() =~= samples.take(k));
    } else {
        assert(samples.take(k) =~= samples);
    }
}

/// Fit a passthrough with a default: without a width the stored bytes as they are
/// (getName/getSymbol-style: stored override or a hardcoded default), and with one
/// the stored number re-encoded (get_premium-style: a scalar getter that reads the
/// stored value as a u128 and returns a hardcoded default when unset). Requires at
/// least one empty-key sample and one non-empty sample to pin both branches.
pub fn fit_default(key: &KeyShape, samples: &Vec<Sample>, width: Option<u8>) -> (r: Option<BytesExpr>)
    ensures
        found(r, default_candidate(key.template(), sample_models(samples@), width)),
{
    let ghost t = key.template();
    let ghost models = sample_models(samples@);
    let n: usize = samples.len();
    let mut default: Option<Vec<u8>> = None;
    let mut saw_nonempty = false;
    assert(models.take(0) =~= Seq::empty());
    for i in 0..n
        invariant
            n == samples@.len(),
            t == key.template(),
            models == sample_models(samples@),
            match default {
                Some(d) => unset_output(t, models.take(i as int)) == Some(d@),
                None => unset_output(t, models.take(i as int)) is None,
            },
            saw_nonempty <==> exists|j: int| 0 <= j < i && stored_in(t, #[trigger] models[j]).len() > 0,
            forall|j: int| 0 <= j < i ==> (if stored_in(t, #[trigger] models[j]).len() == 0 {
                default matches Some(d) && models[j].output == d@
            } else {
                models[j].output == set_output(stored_in(t, models[j]), width)
            }),
    {
        let ghost seen = default;
        assert(models[i as int] == samples@[i as int].model());
        assert(models.take(i + 1).drop_last() =~= models.take(i as int));
        proof {
            lemma_unset_take(t, models, i as int);
            lemma_unset_take(t, models, i + 1);
        }
        let value = key_bytes(key, &samples[i]);
        if value.len() == 0 {
            // empty branch: output must be the same constant everywhere
            let same = match &default {
                None => None,
                Some(d) => Some(same_bytes(d.as_slice(), samples[i].output.as_slice())),
            };
            match same {
                None => {
                    default = Some(copy_bytes(samples[i].output.as_slice()));
                }
                Some(true) => {}
                Some(false) => {
                    return None;
                }
            }
        } else {
            // non-empty branch: output must be what the stored bytes give
            let expected = match width {
                None => value,
                Some(w) => encode_le(decode_le(value.as_slice()), w as usize),
            };
            if !same_bytes(samples[i].output.as_slice(), expected.as_slice()) {
                return None;
            }
            saw_nonempty = true;
        }
    }
    assert(models.take(n as int) =~= models);
    match default {
        None => None,
        Some(d) => {
            if saw_nonempty {
                assert(gives_default(t, models, width, d@));
                Some(default_expr(key, width, d))
            } else {
                assert(!gives_default(t, models, width, d@));
                None
            }
        }
    }
}

/* ─────────────── numbers ─────────────── */

/// Constant output width (all samples same length, 1 to 16), for numeric encodings.
pub open spec fn same_width(samples: Seq<SampleModel>) -> Option<u8> {
    let w = samples[0].output.len();
    if samples.len() > 0 && 0 < w <= 16 && (forall|i: int| 0 <= i < samples.len() ==> (#[trigger] samples[i]).output.len() == w) {
        Some(w as u8)
    } else {
        None
    }
}

fn common_width(samples: &Vec<Sample>) -> (r: Option<u8>)
    ensures
        r == same_width(sample_models(samples@)),
{
    let ghost models = sample_models(samples@);
    let n: usize = samples.len();
    if n == 0 {
        return None;
    }
    let w: usize = samples[0].output.len();
    assert(models[0] == samples@[0].model());
    if w == 0 || w > 16 {
        return None;
    }
    for i in 0..n
        invariant
            n == samples@.len(),
            n > 0,
            models == sample_models(samples@),
            w == models[0].output.len(),
            0 < w <= 16,
            forall|j: int| 0 <= j < i ==> (#[trigger] models[j]).output.len() == w,
    {
        assert(models[i as int] == samples@[i as int].model());
        if samples[i].output.len() != w {
            return None;
        }
    }
    Some(w as u8)
}

/// All bits of a number of a width.
pub open spec fn width_mask(width: u8) -> u128 {
    if width >= 16 {
        u128::MAX
    } else {
        ((1u128 << ((8 * width) as u32)) - 1) as u128
    }
}

fn mask_for(width: u8) -> (r: u128)
    ensures
        r == width_mask(width),
{
    if width >= 16 {
        u128::MAX
    } else {
        let shift: u32 = 8 * width as u32;
        assert((1u128 << shift) >= 1) by (bit_vector)
            requires
                shift < 128,
        ;
        (1u128 << shift) - 1
    }
}

/// The outputs as numbers of a width.
pub open spec fn targets_of(samples: Seq<SampleModel>, mask: u128) -> Seq<u128> {
    Seq::new(samples.len(), |i: int| bytes::low_num(samples[i].output) & mask)
}

fn masked_outputs(samples: &Vec<Sample>, mask: u128) -> (r: Vec<u128>)
    ensures
        r@ == targets_of(sample_models(samples@), mask),
{
    let mut out: Vec<u128> = Vec::new();
    let n: usize = samples.len();
    for i in 0..n
        invariant
            n == samples@.len(),
            out@.len() == i,
            forall|j: int| 0 <= j < i ==> #[trigger] out@[j] == targets_of(sample_models(samples@), mask)[j],
    {
        out.push(decode_le(samples[i].output.as_slice()) & mask);
    }
    assert(out@ =~= targets_of(sample_models(samples@), mask));
    out
}

/// What a feature is on a sample.
pub open spec fn feature_on(f: NumTerm, s: SampleModel) -> Result<u128, PlanError> {
    eval::num_value(f, verify::world_of(s.oracle, s.args), None)
}

/// Whether a feature has a value on every sample.
pub open spec fn has_values(f: NumTerm, samples: Seq<SampleModel>) -> bool {
    forall|i: int| 0 <= i < samples.len() ==> feature_on(f, #[trigger] samples[i]) is Ok
}

/// The values of a feature, as numbers of a width.
pub open spec fn values_of(f: NumTerm, samples: Seq<SampleModel>, mask: u128) -> Seq<u128> {
    Seq::new(samples.len(), |i: int| feature_on(f, samples[i]).unwrap() & mask)
}

fn masked_feature(f: &Feature, samples: &Vec<Sample>, mask: u128) -> (r: Option<Vec<u128>>)
    ensures
        match r {
            Some(v) => has_values(f.expr.term(), sample_models(samples@)) && v@ == values_of(f.expr.term(), sample_models(samples@), mask),
            None => !has_values(f.expr.term(), sample_models(samples@)),
        },
{
    let ghost models = sample_models(samples@);
    let mut out: Vec<u128> = Vec::new();
    let n: usize = samples.len();
    for i in 0..n
        invariant
            n == samples@.len(),
            models == sample_models(samples@),
            out@.len() == i,
            forall|j: int| 0 <= j < i ==> feature_on(f.expr.term(), #[trigger] models[j]) is Ok,
            forall|j: int| 0 <= j < i ==> #[trigger] out@[j] == values_of(f.expr.term(), models, mask)[j],
    {
        assert(models[i as int] == samples@[i as int].model());
        let mut env = OracleEnv::new(&samples[i].oracle, samples[i].args.as_slice());
        match eval_num(&f.expr, &mut env, None) {
            Ok(v) => {
                out.push(v & mask);
            }
            Err(_) => {
                return None;
            }
        }
    }
    assert(out@ =~= values_of(f.expr.term(), models, mask));
    Some(out)
}

/// Whether every feature has a value on every sample.
pub open spec fn all_have_values(f: Seq<FeatureModel>, samples: Seq<SampleModel>) -> bool {
    forall|i: int| 0 <= i < f.len() ==> has_values((#[trigger] f[i]).term, samples)
}

pub open spec fn rows_of(f: Seq<FeatureModel>, samples: Seq<SampleModel>, mask: u128) -> Seq<Seq<u128>> {
    Seq::new(f.len(), |i: int| values_of(f[i].term, samples, mask))
}

pub open spec fn row_views(rows: Seq<Vec<u128>>) -> Seq<Seq<u128>> {
    Seq::new(rows.len(), |i: int| rows[i]@)
}

fn masked_features(features: &Vec<Feature>, samples: &Vec<Sample>, mask: u128) -> (r: Option<Vec<Vec<u128>>>)
    ensures
        match r {
            Some(rows) => all_have_values(synth::feature_models(features@), sample_models(samples@))
                && row_views(rows@) == rows_of(synth::feature_models(features@), sample_models(samples@), mask),
            None => !all_have_values(synth::feature_models(features@), sample_models(samples@)),
        },
{
    let ghost fs = synth::feature_models(features@);
    let ghost models = sample_models(samples@);
    let mut out: Vec<Vec<u128>> = Vec::new();
    let n: usize = features.len();
    for i in 0..n
        invariant
            n == features@.len(),
            fs == synth::feature_models(features@),
            models == sample_models(samples@),
            out@.len() == i,
            forall|j: int| 0 <= j < i ==> has_values((#[trigger] fs[j]).term, models),
            forall|j: int| 0 <= j < i ==> (#[trigger] out@[j])@ == values_of(fs[j].term, models, mask),
    {
        assert(fs[i as int] == features@[i as int].model());
        match masked_feature(&features[i], samples, mask) {
            Some(row) => {
                out.push(row);
            }
            None => {
                return None;
            }
        }
    }
    assert(row_views(out@) =~= rows_of(fs, models, mask));
    Some(out)
}

/// A number, encoded at a width.
pub open spec fn encoded(n: NumTerm, width: u8) -> BytesTerm {
    BytesTerm::Le { of: Box::new(n), width }
}

fn encode(n: NumExpr, width: u8) -> (r: BytesExpr)
    ensures
        r.term() == encoded(n.term(), width),
{
    BytesExpr::Le { of: Box::new(n), width }
}

/// Output == feature.
pub open spec fn identity_candidate(f: NumTerm, row: Seq<u128>, targets: Seq<u128>, width: u8) -> Option<BytesTerm> {
    if row == targets {
        Some(encoded(f, width))
    } else {
        None
    }
}

fn same_numbers(a: &Vec<u128>, b: &Vec<u128>) -> (r: bool)
    ensures
        r == (a@ == b@),
{
    if a.len() != b.len() {
        return false;
    }
    let n: usize = a.len();
    for i in 0..n
        invariant
            n == a@.len() == b@.len(),
            forall|j: int| 0 <= j < i ==> a@[j] == b@[j],
    {
        if a[i] != b[i] {
            return false;
        }
    }
    assert(a@ =~= b@);
    true
}

/// The first place where a row differs from its first number.
pub open spec fn first_other(xs: Seq<u128>, from: nat) -> Option<int>
    decreases xs.len() - from,
{
    if from >= xs.len() {
        None
    } else if xs[from as int] != xs[0] {
        Some(from as int)
    } else {
        first_other(xs, from + 1)
    }
}

/// Output == x * a + b (mod 2^width) with small integer a >= 1, from two samples with
/// distinct x, if it holds of all. The trivial identity is left out.
pub open spec fn affine(xs: Seq<u128>, ys: Seq<u128>, mask: u128) -> Option<(u128, u128)> {
    match first_other(xs, 0) {
        None => None,
        Some(j) => {
            let up = xs[0] > xs[j];
            let dx = if up { xs[0] - xs[j] } else { xs[j] - xs[0] } as u128;
            let dy = if up { ys[0].wrapping_sub(ys[j]) & mask } else { ys[j].wrapping_sub(ys[0]) & mask };
            let a = dy / dx;
            let b = ys[0].wrapping_sub(a.wrapping_mul(xs[0])) & mask;
            if dy % dx != 0 || a == 0 || a > 1_000_000 || (a == 1 && b == 0) {
                None
            } else if forall|k: int| 0 <= k < xs.len() ==> (#[trigger] xs[k]).wrapping_mul(a).wrapping_add(b) & mask == ys[k] {
                Some((a, b))
            } else {
                None
            }
        }
    }
}

proof fn lemma_first_other(xs: Seq<u128>, from: nat)
    ensures
        match first_other(xs, from) {
            Some(j) => from <= j < xs.len() && xs[j] != xs[0],
            None => true,
        },
    decreases xs.len() - from,
{
    if from < xs.len() && xs[from as int] == xs[0] {
        lemma_first_other(xs, from + 1);
    }
}

/// Fit output == x * a + b (mod 2^width) with small integer a, from two rows
/// with distinct x, then check all. Returns (a, b), a >= 1, rejecting the
/// trivial identity (handled earlier).
pub fn fit_affine(xs: &Vec<u128>, ys: &Vec<u128>, mask: u128) -> (r: Option<(u128, u128)>)
    requires
        xs@.len() <= ys@.len(),
    ensures
        r == affine(xs@, ys@, mask),
{
    let n: usize = xs.len();
    let mut j: usize = 0;
    while j < n && xs[j] == xs[0]
        invariant
            n == xs@.len(),
            j <= n,
            first_other(xs@, 0) == first_other(xs@, j as nat),
        decreases n - j,
    {
        j = j + 1;
    }
    if j >= n {
        return None;
    }
    assert(first_other(xs@, 0) == Some(j as int));
    let (xi, xj, yi, yj): (u128, u128, u128, u128) = (xs[0], xs[j], ys[0], ys[j]);
    let (dx, dy): (u128, u128) = if xi > xj {
        (xi - xj, yi.wrapping_sub(yj) & mask)
    } else {
        (xj - xi, yj.wrapping_sub(yi) & mask)
    };
    if dy % dx != 0 {
        return None;
    }
    let a: u128 = dy / dx;
    if a == 0 || a > 1_000_000 {
        return None;
    }
    let b: u128 = yi.wrapping_sub(a.wrapping_mul(xi)) & mask;
    if a == 1 && b == 0 {
        return None;
    }
    for k in 0..n
        invariant
            n == xs@.len() <= ys@.len(),
            forall|i: int| 0 <= i < k ==> (#[trigger] xs@[i]).wrapping_mul(a).wrapping_add(b) & mask == ys@[i],
            affine(xs@, ys@, mask) == (if forall|k: int| 0 <= k < xs@.len() ==> (#[trigger] xs@[k]).wrapping_mul(a).wrapping_add(b) & mask == ys@[k] {
                Some((a, b))
            } else {
                None
            }),
    {
        if xs[k].wrapping_mul(a).wrapping_add(b) & mask != ys[k] {
            return None;
        }
    }
    Some((a, b))
}

/// Output == feature * a + b.
pub open spec fn affine_term(f: NumTerm, a: u128, b: u128) -> NumTerm {
    let scaled = if a != 1 { term::op_term(NumOp::Mul, f, NumTerm::Const(a)) } else { f };
    if b != 0 {
        term::op_term(NumOp::Add, scaled, NumTerm::Const(b))
    } else {
        scaled
    }
}

pub open spec fn affine_candidate(f: NumTerm, row: Seq<u128>, targets: Seq<u128>, mask: u128, width: u8) -> Option<BytesTerm> {
    match affine(row, targets, mask) {
        Some((a, b)) => Some(encoded(affine_term(f, a, b), width)),
        None => None,
    }
}

fn affine_expr(f: &NumExpr, a: u128, b: u128) -> (r: NumExpr)
    ensures
        r.term() == affine_term(f.term(), a, b),
{
    let mut num = f.copy();
    if a != 1 {
        let c = NumExpr::Const(a);
        assert(c.term() == NumTerm::Const(a));
        num = NumExpr::Mul(Box::new(num), Box::new(c));
        assert(num.term() == term::op_term(NumOp::Mul, f.term(), NumTerm::Const(a)));
    }
    if b != 0 {
        let c = NumExpr::Const(b);
        assert(c.term() == NumTerm::Const(b));
        num = NumExpr::Add(Box::new(num), Box::new(c));
    }
    num
}

/// The sum of the first `n` rows on a sample.
pub open spec fn row_sum(rows: Seq<Seq<u128>>, n: nat, s: int) -> u128
    decreases n,
{
    if n == 0 {
        0
    } else {
        row_sum(rows, (n - 1) as nat, s).wrapping_add(rows[n - 1][s])
    }
}

/// The sum of the first `n` features.
pub open spec fn sum_term(f: Seq<FeatureModel>, n: nat) -> NumTerm
    decreases n,
{
    if n <= 1 {
        f[0].term
    } else {
        term::op_term(NumOp::Add, sum_term(f, (n - 1) as nat), f[n - 1].term)
    }
}

/// Output == (f0 + f1 + ...) / d.
pub open spec fn sum_candidate(f: Seq<FeatureModel>, rows: Seq<Seq<u128>>, targets: Seq<u128>, mask: u128, width: u8, d: u128) -> Option<BytesTerm> {
    if forall|s: int| 0 <= s < targets.len() ==> (row_sum(rows, rows.len(), s) / d) & mask == #[trigger] targets[s] {
        Some(
            encoded(
                if d == 1 {
                    sum_term(f, f.len())
                } else {
                    term::op_term(NumOp::Div, sum_term(f, f.len()), NumTerm::Const(d))
                },
                width,
            ),
        )
    } else {
        None
    }
}

/// Two features combined: added, subtracted, or multiplied.
pub open spec fn pair_op(op: int) -> NumOp {
    if op == 0 {
        NumOp::Add
    } else if op == 1 {
        NumOp::Sub
    } else {
        NumOp::Mul
    }
}

pub open spec fn pair_candidate(f: Seq<FeatureModel>, rows: Seq<Seq<u128>>, targets: Seq<u128>, mask: u128, width: u8, i: int, j: int, op: int) -> Option<BytesTerm> {
    if i != j && forall|s: int| 0 <= s < targets.len() ==> eval::num_op(pair_op(op), rows[i][s], rows[j][s]) & mask == #[trigger] targets[s] {
        Some(encoded(term::op_term(pair_op(op), f[i].term, f[j].term), width))
    } else {
        None
    }
}

/* ─────────────── the search ─────────────── */

/// What the numeric stages work on.
pub ghost struct NumberFit {
    pub features: Seq<FeatureModel>,
    pub rows: Seq<Seq<u128>>,
    pub targets: Seq<u128>,
    pub mask: u128,
    pub width: u8,
}

pub open spec fn identity_candidates(nf: NumberFit) -> Seq<Option<BytesTerm>> {
    Seq::new(nf.features.len(), |i: int| identity_candidate(nf.features[i].term, nf.rows[i], nf.targets, nf.width))
}

pub open spec fn affine_candidates(nf: NumberFit) -> Seq<Option<BytesTerm>> {
    Seq::new(nf.features.len(), |i: int| affine_candidate(nf.features[i].term, nf.rows[i], nf.targets, nf.mask, nf.width))
}

pub open spec fn sum_candidates(nf: NumberFit) -> Seq<Option<BytesTerm>> {
    Seq::new(4, |i: int| sum_candidate(nf.features, nf.rows, nf.targets, nf.mask, nf.width, (i + 1) as u128))
}

pub open spec fn pair_candidates(nf: NumberFit, i: int, j: int) -> Seq<Option<BytesTerm>> {
    Seq::new(3, |op: int| pair_candidate(nf.features, nf.rows, nf.targets, nf.mask, nf.width, i, j, op))
}

/// The first pair that fits, from a pair on.
pub open spec fn first_pair(nf: NumberFit, samples: Seq<SampleModel>, i: nat, j: nat) -> Option<BytesTerm>
    decreases nf.features.len() - i, nf.features.len() - j,
{
    if i >= nf.features.len() {
        None
    } else if j >= nf.features.len() {
        first_pair(nf, samples, i + 1, 0)
    } else {
        match first_fitting(pair_candidates(nf, i as int, j as int), samples, 0) {
            Some(e) => Some(e),
            None => first_pair(nf, samples, i, j + 1),
        }
    }
}

/// The first of two results.
pub open spec fn or_else(a: Option<BytesTerm>, b: Option<BytesTerm>) -> Option<BytesTerm> {
    match a {
        Some(e) => Some(e),
        None => b,
    }
}

/// The numeric stages, in order: one feature, affine in one feature, the sum of all
/// divided by a small constant, and two features combined.
pub open spec fn fitted_number(nf: NumberFit, samples: Seq<SampleModel>) -> Option<BytesTerm> {
    or_else(
        first_fitting(identity_candidates(nf), samples, 0),
        or_else(
            first_fitting(affine_candidates(nf), samples, 0),
            or_else(first_fitting(sum_candidates(nf), samples, 0), first_pair(nf, samples, 0, 0)),
        ),
    )
}

pub open spec fn passthrough_candidates(set: KeySet) -> Seq<Option<BytesTerm>> {
    Seq::new(set.keys.len(), |i: int| Some(synth::stored_term(set.keys[i])))
}

pub open spec fn default_candidates(set: KeySet, samples: Seq<SampleModel>, width: Option<u8>) -> Seq<Option<BytesTerm>> {
    Seq::new(set.keys.len(), |i: int| default_candidate(set.keys[i], samples, width))
}

/// The numeric stages over the features of a key set, if every feature has a value on
/// every sample.
pub open spec fn fitted_feature(set: KeySet, samples: Seq<SampleModel>, width: u8) -> Option<BytesTerm> {
    let features = synth::feature_list(set);
    let mask = width_mask(width);
    if all_have_values(features, samples) {
        fitted_number(
            NumberFit {
                features,
                rows: rows_of(features, samples, mask),
                targets: targets_of(samples, mask),
                mask,
                width,
            },
            samples,
        )
    } else {
        None
    }
}

/// The expression that fits the samples, most specific first: a constant, a raw
/// passthrough, a passthrough with a default, and, where all outputs have one width
/// that a number has, the same for the number stored and the numeric stages.
pub open spec fn fitted(set: KeySet, samples: Seq<SampleModel>) -> Option<BytesTerm> {
    if samples.len() < 8 {
        None
    } else if forall|i: int| 0 <= i < samples.len() ==> (#[trigger] samples[i]).output == samples[0].output {
        Some(BytesTerm::Const(samples[0].output))
    } else {
        or_else(
            first_fitting(passthrough_candidates(set), samples, 0),
            or_else(
                first_fitting(default_candidates(set, samples, None), samples, 0),
                match same_width(samples) {
                    None => None,
                    Some(width) => or_else(
                        first_fitting(default_candidates(set, samples, Some(width)), samples, 0),
                        fitted_feature(set, samples, width),
                    ),
                },
            ),
        )
    }
}

proof fn lemma_first_fits(candidates: Seq<Option<BytesTerm>>, samples: Seq<SampleModel>, from: nat)
    ensures
        first_fitting(candidates, samples, from) matches Some(e) ==> fits(e, samples),
    decreases candidates.len() - from,
{
    if from < candidates.len() {
        lemma_first_fits(candidates, samples, from + 1);
    }
}

proof fn lemma_pair_fits(nf: NumberFit, samples: Seq<SampleModel>, i: nat, j: nat)
    ensures
        first_pair(nf, samples, i, j) matches Some(e) ==> fits(e, samples),
    decreases nf.features.len() - i, nf.features.len() - j,
{
    if i < nf.features.len() {
        if j >= nf.features.len() {
            lemma_pair_fits(nf, samples, i + 1, 0);
        } else {
            lemma_first_fits(pair_candidates(nf, i as int, j as int), samples, 0);
            lemma_pair_fits(nf, samples, i, j + 1);
        }
    }
}

/// What is fitted gives the output of every sample, byte for byte.
pub proof fn lemma_fitted(set: KeySet, samples: Seq<SampleModel>)
    ensures
        fitted(set, samples) matches Some(e) ==> fits(e, samples),
{
    lemma_first_fits(passthrough_candidates(set), samples, 0);
    lemma_first_fits(default_candidates(set, samples, None), samples, 0);
    if let Some(width) = same_width(samples) {
        lemma_first_fits(default_candidates(set, samples, Some(width)), samples, 0);
        let features = synth::feature_list(set);
        let mask = width_mask(width);
        let nf = NumberFit {
            features,
            rows: rows_of(features, samples, mask),
            targets: targets_of(samples, mask),
            mask,
            width,
        };
        lemma_first_fits(identity_candidates(nf), samples, 0);
        lemma_first_fits(affine_candidates(nf), samples, 0);
        lemma_first_fits(sum_candidates(nf), samples, 0);
        lemma_pair_fits(nf, samples, 0, 0);
    }
}

fn fit_passthrough(model: &KeyModel, samples: &Vec<Sample>) -> (r: Option<BytesExpr>)
    ensures
        found(r, first_fitting(passthrough_candidates(model.set()), sample_models(samples@), 0)),
{
    let ghost models = sample_models(samples@);
    let ghost cands = passthrough_candidates(model.set());
    let n: usize = model.keys.len();
    for i in 0..n
        invariant
            n == model.keys@.len() == cands.len(),
            models == sample_models(samples@),
            cands == passthrough_candidates(model.set()),
            first_fitting(cands, models, 0) == first_fitting(cands, models, i as nat),
    {
        assert(cands[i as int] == Some(synth::stored_term(model.keys@[i as int].template())));
        match checked(Some(stored_expr(&model.keys[i])), samples) {
            Some(e) => {
                return Some(e);
            }
            None => {}
        }
    }
    None
}

fn fit_defaults(model: &KeyModel, samples: &Vec<Sample>, width: Option<u8>) -> (r: Option<BytesExpr>)
    ensures
        found(r, first_fitting(default_candidates(model.set(), sample_models(samples@), width), sample_models(samples@), 0)),
{
    let ghost models = sample_models(samples@);
    let ghost cands = default_candidates(model.set(), models, width);
    let n: usize = model.keys.len();
    for i in 0..n
        invariant
            n == model.keys@.len() == cands.len(),
            models == sample_models(samples@),
            cands == default_candidates(model.set(), models, width),
            first_fitting(cands, models, 0) == first_fitting(cands, models, i as nat),
    {
        assert(cands[i as int] == default_candidate(model.keys@[i as int].template(), models, width));
        match checked(fit_default(&model.keys[i], samples, width), samples) {
            Some(e) => {
                return Some(e);
            }
            None => {}
        }
    }
    None
}

/// What the numeric stages work on.
struct Numbers {
    features: Vec<Feature>,
    rows: Vec<Vec<u128>>,
    targets: Vec<u128>,
    mask: u128,
    width: u8,
}

impl Numbers {
    spec fn fit(self) -> NumberFit {
        NumberFit {
            features: synth::feature_models(self.features@),
            rows: row_views(self.rows@),
            targets: self.targets@,
            mask: self.mask,
            width: self.width,
        }
    }

    /// There is a row for every feature, and a number in it for every target.
    spec fn wf(self) -> bool {
        &&& self.features@.len() > 0
        &&& self.rows@.len() == self.features@.len()
        &&& forall|i: int| 0 <= i < self.rows@.len() ==> (#[trigger] self.rows@[i])@.len() == self.targets@.len()
    }

    fn fit_identity(&self, samples: &Vec<Sample>) -> (r: Option<BytesExpr>)
        requires
            self.wf(),
        ensures
            found(r, first_fitting(identity_candidates(self.fit()), sample_models(samples@), 0)),
    {
        let ghost models = sample_models(samples@);
        let ghost cands = identity_candidates(self.fit());
        let n: usize = self.features.len();
        for i in 0..n
            invariant
                self.wf(),
                n == self.features@.len() == cands.len(),
                models == sample_models(samples@),
                cands == identity_candidates(self.fit()),
                first_fitting(cands, models, 0) == first_fitting(cands, models, i as nat),
        {
            assert(self.fit().features[i as int] == self.features@[i as int].model());
            assert(self.fit().rows[i as int] == self.rows@[i as int]@);
            if same_numbers(&self.rows[i], &self.targets) {
                match checked(Some(encode(self.features[i].expr.copy(), self.width)), samples) {
                    Some(e) => {
                        return Some(e);
                    }
                    None => {}
                }
            }
        }
        None
    }

    fn fit_affines(&self, samples: &Vec<Sample>) -> (r: Option<BytesExpr>)
        requires
            self.wf(),
        ensures
            found(r, first_fitting(affine_candidates(self.fit()), sample_models(samples@), 0)),
    {
        let ghost models = sample_models(samples@);
        let ghost cands = affine_candidates(self.fit());
        let n: usize = self.features.len();
        for i in 0..n
            invariant
                self.wf(),
                n == self.features@.len() == cands.len(),
                models == sample_models(samples@),
                cands == affine_candidates(self.fit()),
                first_fitting(cands, models, 0) == first_fitting(cands, models, i as nat),
        {
            assert(self.fit().features[i as int] == self.features@[i as int].model());
            assert(self.fit().rows[i as int] == self.rows@[i as int]@);
            if let Some((a, b)) = fit_affine(&self.rows[i], &self.targets, self.mask) {
                match checked(Some(encode(affine_expr(&self.features[i].expr, a, b), self.width)), samples) {
                    Some(e) => {
                        return Some(e);
                    }
                    None => {}
                }
            }
        }
        None
    }

    fn sum_fits(&self, d: u128) -> (r: bool)
        requires
            self.wf(),
            d > 0,
        ensures
            r == (forall|s: int| 0 <= s < self.fit().targets.len() ==> (row_sum(self.fit().rows, self.fit().rows.len(), s) / d) & self.mask
                == #[trigger] self.fit().targets[s]),
    {
        let n: usize = self.targets.len();
        let m: usize = self.rows.len();
        for s in 0..n
            invariant
                self.wf(),
                d > 0,
                n == self.targets@.len(),
                m == self.rows@.len(),
                forall|k: int| 0 <= k < s ==> (row_sum(self.fit().rows, self.fit().rows.len(), k) / d) & self.mask == #[trigger] self.fit().targets[k],
        {
            let mut sum: u128 = 0;
            for i in 0..m
                invariant
                    self.wf(),
                    s < self.targets@.len(),
                    m == self.rows@.len(),
                    sum == row_sum(self.fit().rows, i as nat, s as int),
            {
                assert(self.fit().rows[i as int] == self.rows@[i as int]@);
                sum = sum.wrapping_add(self.rows[i][s]);
            }
            if (sum / d) & self.mask != self.targets[s] {
                assert(self.fit().targets[s as int] == self.targets@[s as int]);
                return false;
            }
        }
        true
    }

    fn sum_expr(&self) -> (r: NumExpr)
        requires
            self.wf(),
        ensures
            r.term() == sum_term(self.fit().features, self.fit().features.len()),
    {
        let n: usize = self.features.len();
        let mut sum = self.features[0].expr.copy();
        assert(self.fit().features[0] == self.features@[0].model());
        for i in 1..n
            invariant
                self.wf(),
                n == self.features@.len(),
                1 <= i <= n,
                sum.term() == sum_term(self.fit().features, i as nat),
        {
            assert(self.fit().features[i as int] == self.features@[i as int].model());
            sum = NumExpr::Add(Box::new(sum), Box::new(self.features[i].expr.copy()));
        }
        sum
    }

    fn fit_sum(&self, samples: &Vec<Sample>) -> (r: Option<BytesExpr>)
        requires
            self.wf(),
        ensures
            found(r, first_fitting(sum_candidates(self.fit()), sample_models(samples@), 0)),
    {
        let ghost models = sample_models(samples@);
        let ghost cands = sum_candidates(self.fit());
        for i in 0..4usize
            invariant
                self.wf(),
                models == sample_models(samples@),
                cands == sum_candidates(self.fit()),
                first_fitting(cands, models, 0) == first_fitting(cands, models, i as nat),
        {
            let d: u128 = i as u128 + 1;
            let candidate = if self.sum_fits(d) {
                let sum = self.sum_expr();
                if d == 1 {
                    Some(encode(sum, self.width))
                } else {
                    let c = NumExpr::Const(d);
                    assert(c.term() == NumTerm::Const(d));
                    Some(encode(NumExpr::Div(Box::new(sum), Box::new(c)), self.width))
                }
            } else {
                None
            };
            assert(found(candidate, cands[i as int]));
            match checked(candidate, samples) {
                Some(e) => {
                    return Some(e);
                }
                None => {}
            }
        }
        None
    }

    fn pair(&self, i: usize, j: usize, op: u8) -> (r: Option<BytesExpr>)
        requires
            self.wf(),
            i < self.features@.len(),
            j < self.features@.len(),
            op < 3,
        ensures
            found(r, pair_candidates(self.fit(), i as int, j as int)[op as int]),
    {
        assert(self.fit().features[i as int] == self.features@[i as int].model());
        assert(self.fit().features[j as int] == self.features@[j as int].model());
        assert(self.fit().rows[i as int] == self.rows@[i as int]@);
        assert(self.fit().rows[j as int] == self.rows@[j as int]@);
        if i == j {
            return None;
        }
        let n: usize = self.targets.len();
        for s in 0..n
            invariant
                self.wf(),
                i < self.features@.len(),
                j < self.features@.len(),
                op < 3,
                i != j,
                n == self.targets@.len(),
                self.fit().rows[i as int] == self.rows@[i as int]@,
                self.fit().rows[j as int] == self.rows@[j as int]@,
                forall|k: int| 0 <= k < s ==> eval::num_op(pair_op(op as int), self.fit().rows[i as int][k], self.fit().rows[j as int][k]) & self.mask
                    == #[trigger] self.fit().targets[k],
        {
            let (a, b): (u128, u128) = (self.rows[i][s], self.rows[j][s]);
            let v: u128 = if op == 0 {
                a.wrapping_add(b)
            } else if op == 1 {
                a.wrapping_sub(b)
            } else {
                a.wrapping_mul(b)
            };
            if v & self.mask != self.targets[s] {
                assert(self.fit().targets[s as int] == self.targets@[s as int]);
                return None;
            }
        }
        let a = Box::new(self.features[i].expr.copy());
        let b = Box::new(self.features[j].expr.copy());
        let num = if op == 0 {
            NumExpr::Add(a, b)
        } else if op == 1 {
            NumExpr::Sub(a, b)
        } else {
            NumExpr::Mul(a, b)
        };
        Some(encode(num, self.width))
    }

    fn fit_pair(&self, i: usize, j: usize, samples: &Vec<Sample>) -> (r: Option<BytesExpr>)
        requires
            self.wf(),
            i < self.features@.len(),
            j < self.features@.len(),
        ensures
            found(r, first_fitting(pair_candidates(self.fit(), i as int, j as int), sample_models(samples@), 0)),
    {
        let ghost models = sample_models(samples@);
        let ghost cands = pair_candidates(self.fit(), i as int, j as int);
        for op in 0..3u8
            invariant
                self.wf(),
                i < self.features@.len(),
                j < self.features@.len(),
                models == sample_models(samples@),
                cands == pair_candidates(self.fit(), i as int, j as int),
                first_fitting(cands, models, 0) == first_fitting(cands, models, op as nat),
        {
            match checked(self.pair(i, j, op), samples) {
                Some(e) => {
                    return Some(e);
                }
                None => {}
            }
        }
        None
    }

    fn fit_pairs(&self, samples: &Vec<Sample>) -> (r: Option<BytesExpr>)
        requires
            self.wf(),
        ensures
            found(r, first_pair(self.fit(), sample_models(samples@), 0, 0)),
    {
        let ghost models = sample_models(samples@);
        let n: usize = self.features.len();
        for i in 0..n
            invariant
                self.wf(),
                n == self.features@.len(),
                models == sample_models(samples@),
                first_pair(self.fit(), models, 0, 0) == first_pair(self.fit(), models, i as nat, 0),
        {
            for j in 0..n
                invariant
                    self.wf(),
                    n == self.features@.len(),
                    i < n,
                    models == sample_models(samples@),
                    first_pair(self.fit(), models, 0, 0) == first_pair(self.fit(), models, i as nat, j as nat),
            {
                match self.fit_pair(i, j, samples) {
                    Some(e) => {
                        return Some(e);
                    }
                    None => {}
                }
            }
        }
        None
    }

    fn search(&self, samples: &Vec<Sample>) -> (r: Option<BytesExpr>)
        requires
            self.wf(),
        ensures
            found(r, fitted_number(self.fit(), sample_models(samples@))),
    {
        // Single-feature identity (width-truncated).
        if let Some(e) = self.fit_identity(samples) {
            return Some(e);
        }
        // Affine in one feature.
        if let Some(e) = self.fit_affines(samples) {
            return Some(e);
        }
        // Sum of all features, optionally divided by a small constant
        // (averages, totals).
        if let Some(e) = self.fit_sum(samples) {
            return Some(e);
        }
        // Pairwise add/sub/mul of two features.
        self.fit_pairs(samples)
    }
}

fn all_outputs_same(samples: &Vec<Sample>) -> (r: bool)
    requires
        samples@.len() > 0,
    ensures
        r == (forall|i: int| 0 <= i < samples@.len() ==> (#[trigger] sample_models(samples@)[i]).output == sample_models(samples@)[0].output),
{
    let ghost models = sample_models(samples@);
    let n: usize = samples.len();
    for i in 0..n
        invariant
            n == samples@.len(),
            n > 0,
            models == sample_models(samples@),
            forall|j: int| 0 <= j < i ==> (#[trigger] models[j]).output == models[0].output,
    {
        assert(models[i as int] == samples@[i as int].model());
        assert(models[0] == samples@[0].model());
        if !same_bytes(samples[i].output.as_slice(), samples[0].output.as_slice()) {
            return false;
        }
    }
    true
}

/// The search through the template library. Returns a BytesExpr fitting every
/// sample, or None.
pub fn fit_samples(model: &KeyModel, samples: &Vec<Sample>) -> (r: Option<BytesExpr>)
    ensures
        found(r, fitted(model.set(), sample_models(samples@))),
{
    let ghost models = sample_models(samples@);
    if samples.len() < 8 {
        return None; // not enough signal
    }
    assert(models[0] == samples@[0].model());

    // Constant: every sample produces the same bytes regardless of storage,
    // height, or calldata (a pure constant view, e.g. get_decimals). Verification
    // against fresh oracles guards against a false constant.
    if all_outputs_same(samples) {
        return Some(BytesExpr::Const(copy_bytes(samples[0].output.as_slice())));
    }

    // Raw passthrough: response is exactly one key's stored bytes.
    if let Some(e) = fit_passthrough(model, samples) {
        return Some(e);
    }

    // Passthrough-with-default: if the key is set, its bytes, else a constant.
    if let Some(e) = fit_defaults(model, samples, None) {
        return Some(e);
    }

    // Everything below fits a NUMBER, then encodes it at the observed width.
    let width: u8 = match common_width(samples) {
        None => {
            return None;
        }
        Some(w) => w,
    };
    let mask: u128 = mask_for(width);
    if let Some(e) = fit_defaults(model, samples, Some(width)) {
        return Some(e);
    }
    let features = model.features();
    let targets = masked_outputs(samples, mask);
    let rows = match masked_features(&features, samples, mask) {
        None => {
            return None;
        }
        Some(rows) => rows,
    };
    let numbers = Numbers { features, rows, targets, mask, width };
    proof {
        assert(numbers.features@.len() == synth::feature_models(numbers.features@).len());
        assert(numbers.rows@.len() == row_views(numbers.rows@).len());
        assert forall|i: int| 0 <= i < numbers.rows@.len() implies (#[trigger] numbers.rows@[i])@.len() == numbers.targets@.len() by {
            assert(row_views(numbers.rows@)[i] == numbers.rows@[i]@);
        }
    }
    numbers.search(samples)
}

/// The main search. Returns a BytesExpr fitting every sample drawn, or None.
pub fn fit_expr(prober: &Prober, opcode: u128, model: &KeyModel, dist: ValueDist) -> (r: Option<BytesExpr>)
    ensures
        found(r, fitted(model.set(), samples_of(prober.model(), opcode, model.set(), dist))),
{
    let samples = collect_samples(prober, opcode, model, 40, dist);
    fit_samples(model, &samples)
}

} // verus!
