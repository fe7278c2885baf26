//! View-plan synthesis: recover, from a compiled contract wasm alone,
//! pure-expression plans for view methods so consumers with a batched
//! storage-read API can evaluate them instead of simulating.
//!
//! The pipeline per view method:
//!   1. [`synth::discover_keys`] — which storage keys it reads, and whether
//!      keys are calldata-templated.
//!   2. [`fit::fit_expr`] — fit a BytesExpr over those keys / calldata /
//!      height to the observed outputs.
//!   3. [`verify::verify`] — accept only if the expr matches the wasm across
//!      many fresh randomized oracles.
//!
//! Every step is empirical and gated by (3), so unsupported methods simply get
//! no plan (the consumer falls back to simulate). Nothing here requires the
//! contract to be built with alkabi.
use vstd::prelude::*;
use crate::abi;
use crate::abi::{AbiDocument, AbiMethod, DocumentModel, IoModel, MethodKind, MethodModel};
use crate::plan::{BytesTerm, Plan};
use crate::schema;
use crate::schema::{Schema, SchemaTree};
use crate::text::same_text;

pub mod fit;
pub mod fit_laws;
pub mod guest;
pub mod host;
pub mod laws;
pub mod lift;
pub mod link;
pub mod list;
pub mod probe_laws;
pub mod response;
pub mod search_laws;
pub mod synth;
pub mod verify;

use host::{ProbeError, ProbeFault, Prober, ProberModel};
use synth::{KeyModel, KeySet};
use verify::ValueDist;

verus! {

/// Tuning for plan synthesis.
#[derive(Debug, Clone, Copy, PartialEq, Eq, Structural)]
pub struct AnalysisConfig {
    /// Per-run fuel ceiling in the probe interpreter.
    pub fuel: u64,
    /// Randomized differential trials a plan must pass to ship.
    pub verify_trials: u32,
    /// Base seed for verification (kept fixed for reproducibility).
    pub verify_seed: u64,
}

impl Default for AnalysisConfig {
    fn default() -> (r: Self)
        ensures
            r == (AnalysisConfig { fuel: 100_000_000, verify_trials: 128, verify_seed: 0xA1CAB1_0F17 }),
    {
        AnalysisConfig { fuel: 100_000_000, verify_trials: 128, verify_seed: 0xA1CAB1_0F17 }
    }
}

/* ─────────────── meaning ─────────────── */

/// Whether a primitive is an integer of fixed width.
pub open spec fn is_integer(name: Seq<char>) -> bool {
    ||| name == "u8"@
    ||| name == "u16"@
    ||| name == "u32"@
    ||| name == "u64"@
    ||| name == "u128"@
    ||| name == "i8"@
    ||| name == "i16"@
    ||| name == "i32"@
    ||| name == "i64"@
    ||| name == "i128"@
}

/// The calldata words of an input: one for each integer, in a struct of them too;
/// unknown of any other shape.
pub open spec fn input_words(s: SchemaTree) -> Option<nat>
    decreases s, 0nat,
{
    match s {
        SchemaTree::Primitive(p) => if is_integer(p) { Some(1) } else { None },
        SchemaTree::Struct(fields) => fields_words(fields, fields.len()),
        _ => None,
    }
}

/// The calldata words of the first `n` fields.
pub open spec fn fields_words(fields: Seq<(Seq<char>, SchemaTree)>, n: nat) -> Option<nat>
    decreases fields, n,
{
    if n == 0 || n > fields.len() {
        Some(0)
    } else {
        match (fields_words(fields, (n - 1) as nat), input_words(fields[n - 1].1)) {
            (Some(a), Some(b)) => Some(a + b),
            _ => None,
        }
    }
}

/// A number of words, if it can be counted.
pub open spec fn countable(n: Option<nat>) -> Option<usize> {
    match n {
        Some(n) => if n <= usize::MAX { Some(n as usize) } else { None },
        None => None,
    }
}

/// How many calldata words are assumed of an input: none where there is no input, and
/// four where its words are unknown.
pub open spec fn arg_count(input: Option<IoModel>) -> usize {
    match input {
        None => 0,
        Some(io) => match countable(input_words(io.schema)) {
            Some(n) => n,
            None => 4,
        },
    }
}

/// The plan fitted to values of one distribution, if it passes all its trials.
pub open spec fn attempted(p: ProberModel, opcode: u128, set: KeySet, config: AnalysisConfig, dist: ValueDist) -> Option<(BytesTerm, u32)> {
    match fit::fitted(set, fit::samples_of(p, opcode, set, dist)) {
        None => None,
        Some(e) => match verify::passed(
            p,
            opcode,
            verify::model_cases(set, dist),
            e,
            config.verify_trials,
            config.verify_seed ^ (opcode as u64),
        ) {
            None => None,
            Some(trials) => Some((e, trials)),
        },
    }
}

/// The plan synthesized for a view: integers are tried before strings.
pub open spec fn synthesized(p: ProberModel, opcode: u128, args: usize, config: AnalysisConfig) -> Option<(BytesTerm, u32)> {
    match synth::discovered(p, opcode, args as nat) {
        Ok(Some(set)) => match attempted(p, opcode, set, config, ValueDist::Integer) {
            Some(plan) => Some(plan),
            None => attempted(p, opcode, set, config, ValueDist::Stringy),
        },
        _ => None,
    }
}

/// A method with the plan synthesized for it, if it is a view without one.
#[verifier::opaque]
pub open spec fn planned(p: ProberModel, m: MethodModel, config: AnalysisConfig) -> MethodModel {
    if m.kind == MethodKind::View && m.plan is None {
        MethodModel { plan: synthesized(p, m.opcode, arg_count(m.input), config), ..m }
    } else {
        m
    }
}

/// A document with the plans synthesized for its views.
pub open spec fn planned_document(p: ProberModel, d: DocumentModel, config: AnalysisConfig) -> DocumentModel {
    DocumentModel { methods: Seq::new(d.methods.len(), |i: int| planned(p, d.methods[i], config)), ..d }
}

/// Whether a document is one with the plans that a prober of `wasm` synthesizes.
pub open spec fn attaches(wasm: Seq<u8>, before: DocumentModel, after: DocumentModel, config: AnalysisConfig) -> bool {
    exists|p: Prober| #[trigger] p.source() == (wasm, true) && p.fuel() == config.fuel && after == planned_document(
        p.model(),
        before,
        config,
    )
}

/* ─────────────── synthesis ─────────────── */

fn integer_name(p: &str) -> (r: bool)
    ensures
        r == is_integer(p@),
{
    same_text(p, "u8") || same_text(p, "u16") || same_text(p, "u32") || same_text(p, "u64") || same_text(p, "u128")
        || same_text(p, "i8") || same_text(p, "i16") || same_text(p, "i32") || same_text(p, "i64") || same_text(p, "i128")
}

proof fn lemma_words_grow(fields: Seq<(Seq<char>, SchemaTree)>, k: nat, n: nat)
    requires
        k <= n <= fields.len(),
    ensures
        match (fields_words(fields, k), fields_words(fields, n)) {
            (Some(a), Some(b)) => a <= b,
            (None, Some(b)) => false,
            _ => true,
        },
    decreases n,
{
    if k < n {
        lemma_words_grow(fields, k, (n - 1) as nat);
    }
}

fn count_fields(fields: &Vec<(String, Schema)>) -> (r: Option<usize>)
    ensures
        r == countable(fields_words(schema::named_trees(fields@), fields@.len())),
    decreases fields,
{
    let ghost ts = schema::named_trees(fields@);
    let mut total: usize = 0;
    let n: usize = fields.len();
    for i in 0..n
        invariant
            n == fields@.len(),
            ts == schema::named_trees(fields@),
            fields_words(ts, i as nat) == Some(total as nat),
    {
        assert(ts[i as int] == (fields@[i as int].0@, fields@[i as int].1.tree()));
        proof {
            lemma_words_grow(ts, (i + 1) as nat, n as nat);
        }
        match synth_input_words(&fields[i].1) {
            None => {
                return None;
            }
            Some(words) => match total.checked_add(words) {
                None => {
                    return None;
                }
                Some(sum) => {
                    total = sum;
                }
            },
        }
    }
    Some(total)
}

/// Best-effort calldata word count for a borsh/legacy input schema (only the
/// simple fixed-width shapes; anything else returns None, and the caller probes a
/// default arity).
pub fn synth_input_words(s: &Schema) -> (r: Option<usize>)
    ensures
        r == countable(input_words(s.tree())),
    decreases s,
{
    match s {
        Schema::Primitive(p) => if integer_name(p) {
            Some(1)
        } else {
            None
        },
        Schema::Struct(fields) => {
            proof {
                schema::lemma_struct_tree(*fields);
            }
            count_fields(fields)
        }
        // AlkaneId and refs are two words in practice, but we can't resolve
        // refs here without the registry; the caller's default (4) covers it.
        _ => None,
    }
}

/// How many calldata words to assume for a view whose input arity is unknown
/// (normalized/legacy ABIs). Views mostly take a single AlkaneId (2 words) or
/// nothing; probing 4 covers the common cases without exploding the search.
fn assumed_arg_count(method: &AbiMethod) -> (r: usize)
    ensures
        r == arg_count(method.model().input),
{
    match &method.input {
        Some(io) => match synth_input_words(&io.schema) {
            Some(n) => n,
            None => 4,
        },
        None => 0,
    }
}

fn attempt(prober: &Prober, opcode: u128, model: &KeyModel, config: &AnalysisConfig, dist: ValueDist) -> (r: Option<Plan>)
    ensures
        abi::opt_plan(r) == attempted(prober.model(), opcode, model.set(), *config, dist),
{
    match fit::fit_expr(prober, opcode, model, dist) {
        None => None,
        Some(expr) => {
            let seed: u64 = config.verify_seed ^ (#[verifier::truncate] (opcode as u64));
            match verify::verify(prober, opcode, model, &expr, config.verify_trials, seed, dist) {
                None => None,
                Some(trials) => Some(Plan { expr, trials }),
            }
        }
    }
}

/// Attempt to synthesize a plan for one view opcode. Returns None if the method
/// can't be reduced (disqualified host use, no fitting expression, or failed
/// verification).
pub fn synthesize_one(prober: &Prober, opcode: u128, arg_count: usize, config: &AnalysisConfig) -> (r: Option<Plan>)
    ensures
        abi::opt_plan(r) == synthesized(prober.model(), opcode, arg_count, *config),
{
    let model = match synth::discover_keys(prober, opcode, arg_count) {
        Ok(Some(model)) => model,
        _ => {
            return None;
        }
    };
    // Each value-width archetype is fit and verified against its own
    // distribution; the first that yields a verified plan wins.
    match attempt(prober, opcode, &model, config, ValueDist::Integer) {
        Some(plan) => Some(plan),
        None => attempt(prober, opcode, &model, config, ValueDist::Stringy),
    }
}

/// Synthesizes the plan of a method, if it is a view without one.
fn plan_method(prober: &Prober, method: &mut AbiMethod, config: &AnalysisConfig)
    ensures
        final(method).model() == planned(prober.model(), old(method).model(), *config),
{
    reveal(planned);
    if method.kind == MethodKind::View && method.plan.is_none() {
        let args: usize = assumed_arg_count(method);
        method.plan = synthesize_one(prober, method.opcode, args, config);
    }
}

/// Synthesize plans for every view method in `document` and attach them. Errors
/// building the prober are fatal; per-method failures just leave `plan = None`.
pub fn attach_plans(document: &mut AbiDocument, wasm: &[u8], config: &AnalysisConfig) -> (r: Result<(), ProbeError>)
    ensures
        match r {
            Ok(()) => link::compilation(wasm@) is Ok && attaches(wasm@, old(document).model(), final(document).model(), *config),
            Err(e) => link::compilation(wasm@) matches Err(s) && e.model() == ProbeFault::InvalidWasm(s)
                && final(document).model() == old(document).model(),
        },
{
    let prober = match Prober::new(wasm, config.fuel) {
        Ok(prober) => prober,
        Err(e) => {
            return Err(e);
        }
    };
    let ghost before = document.model();
    let n: usize = document.methods.len();
    for i in 0..n
        invariant
            n == document.methods@.len() == before.methods.len(),
            document.contract@ == before.contract,
            document.types.types() == before.types,
            forall|j: int| 0 <= j < i ==> (#[trigger] document.methods@[j]).model() == planned(
                prober.model(),
                before.methods[j],
                *config,
            ),
            forall|j: int| i <= j < n ==> (#[trigger] document.methods@[j]).model() == before.methods[j],
    {
        plan_method(&prober, &mut document.methods[i], config);
    }
    assert(document.model().methods =~= planned_document(prober.model(), before, *config).methods);
    assert(prober.source() == (wasm@, true));
    Ok(())
}

/* ─────────────── laws ─────────────── */

/// The same integer code, document and configuration get the same plans, however often
/// they are synthesized.
pub proof fn lemma_plans_reproducible(wasm: Seq<u8>, before: DocumentModel, a: DocumentModel, b: DocumentModel, config: AnalysisConfig)
    requires
        link::integer_only(wasm),
        attaches(wasm, before, a, config),
        attaches(wasm, before, b, config),
    ensures
        a == b,
{
    let p = choose|p: Prober| #[trigger] p.source() == (wasm, true) && p.fuel() == config.fuel && a == planned_document(
        p.model(),
        before,
        config,
    );
    let q = choose|p: Prober| #[trigger] p.source() == (wasm, true) && p.fuel() == config.fuel && b == planned_document(
        p.model(),
        before,
        config,
    );
    host::lemma_probers_agree(p, q);
}

/// A plan that comes of synthesis was compared with the wasm in as many trials as the
/// configuration asks for, and whatever was compared on the way agreed, byte for byte.
pub proof fn lemma_synthesized(p: ProberModel, opcode: u128, args: usize, config: AnalysisConfig, k: nat)
    requires
        k < verify::max_attempts(config.verify_trials),
    ensures
        synthesized(p, opcode, args, config) matches Some((e, trials)) ==> {
            &&& trials == config.verify_trials
            &&& synth::discovered(p, opcode, args as nat) matches Ok(Some(set)) && exists|dist: ValueDist|
                match verify::progress(
                    p,
                    opcode,
                    #[trigger] verify::model_cases(set, dist),
                    e,
                    trials,
                    config.verify_seed ^ (opcode as u64),
                    k,
                ) {
                    Some((s, n)) => n < trials ==> verify::attempt_agrees(
                        p,
                        opcode,
                        (verify::model_cases(set, dist))(s),
                        e,
                    ),
                    None => false,
                }
        },
{
    if let Some((e, trials)) = synthesized(p, opcode, args, config) {
        if let Ok(Some(set)) = synth::discovered(p, opcode, args as nat) {
            let dist = if attempted(p, opcode, set, config, ValueDist::Integer) is Some {
                ValueDist::Integer
            } else {
                ValueDist::Stringy
            };
            verify::lemma_verified(
                p,
                opcode,
                verify::model_cases(set, dist),
                e,
                config.verify_trials,
                config.verify_seed ^ (opcode as u64),
                k,
            );
        }
    }
}

/// Plans change nothing of a document but the views that had none: methods keep their
/// order, and everything else of them.
pub proof fn lemma_planned(p: ProberModel, d: DocumentModel, config: AnalysisConfig, i: int)
    requires
        0 <= i < d.methods.len(),
    ensures
        planned_document(p, d, config).methods.len() == d.methods.len(),
        planned_document(p, d, config).contract == d.contract,
        planned_document(p, d, config).types == d.types,
        (MethodModel { plan: None, ..planned_document(p, d, config).methods[i] }) == (MethodModel { plan: None, ..d.methods[i] }),
        d.methods[i].kind == MethodKind::Execute || d.methods[i].plan is Some ==> planned_document(p, d, config).methods[i]
            == d.methods[i],
{
    reveal(planned);
}

} // verus!
