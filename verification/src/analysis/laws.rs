//! What drawing cases and comparing a plan with the wasm promise.
use vstd::prelude::*;
use crate::analysis::host::{OutcomeModel, ProberModel};
use crate::analysis::synth;
use crate::analysis::synth::{KeySet, KeyTemplate};
use crate::analysis::verify;
use crate::analysis::verify::{Case, ValueDist};
use crate::bytes;
use crate::plan::eval;
use crate::plan::{BytesTerm, PlanError, World};

verus! {

/* ─────────────── values ─────────────── */

/// Whether the first number drawn from a state asks for the empty value: one in four of
/// the integers, one in three of the texts.
pub open spec fn asks_for_empty(s: u64, dist: ValueDist) -> bool {
    synth::draw64(s).1 % (match dist {
        ValueDist::Integer => 4u64,
        ValueDist::Stringy => 3u64,
    }) == 0
}

/// The empty value is drawn exactly where the first number drawn asks for it. Any other
/// integer has 8 bytes or 16; any other text has one to twenty characters, each printable
/// and no space.
pub proof fn lemma_values_drawn(s: u64, dist: ValueDist)
    ensures
        verify::draw_stored(s, dist).1.len() == 0 <==> asks_for_empty(s, dist),
        dist is Integer && synth::draw64(s).1 % 4 == 1 ==> verify::draw_stored(s, dist).1.len() == 8,
        dist is Integer && synth::draw64(s).1 % 4 >= 2 ==> verify::draw_stored(s, dist).1.len() == 16,
        dist is Stringy ==> verify::draw_stored(s, dist).1.len() <= 20,
        dist is Stringy ==> forall|i: int| 0 <= i < verify::draw_stored(s, dist).1.len()
            ==> 33 <= #[trigger] verify::draw_stored(s, dist).1[i] <= 126,
{
    let (t, pick) = synth::draw64(s);
    let (u, n) = synth::draw64(t);
    bytes::lemma_le_bytes_len(n as int, 8);
    bytes::lemma_le_bytes_len(synth::draw_value(t).1 as int, 16);
    lemma_printable(u, (n % 20 + 1) as nat);
}

proof fn lemma_printable(s: u64, n: nat)
    ensures
        verify::draw_printable(s, n).1.len() == n,
        forall|i: int| 0 <= i < n ==> 33 <= #[trigger] verify::draw_printable(s, n).1[i] <= 126,
    decreases n,
{
    if n > 0 {
        lemma_printable(s, (n - 1) as nat);
    }
}

/// The integer stored is the number drawn for it: any of 64 bits where it has 8 bytes, a
/// storage integer where it has 16.
pub proof fn lemma_integer_drawn(s: u64)
    ensures
        synth::draw64(s).1 % 4 == 1 ==> bytes::le_num(verify::draw_stored(s, ValueDist::Integer).1) == synth::draw64(
            synth::draw64(s).0,
        ).1,
        synth::draw64(s).1 % 4 >= 2 ==> bytes::le_num(verify::draw_stored(s, ValueDist::Integer).1) == synth::draw_value(
            synth::draw64(s).0,
        ).1,
{
    let t = synth::draw64(s).0;
    bytes::lemma_pow256_16();
    bytes::lemma_le_round_trip(synth::draw64(t).1 as int, 8);
    bytes::lemma_le_round_trip(synth::draw_value(t).1 as int, 16);
}

/// A storage integer is below a thousand, below a thousand million, of 64 bits, or of 128
/// with the first half drawn in front, by the first number drawn.
pub proof fn lemma_sizes_drawn(s: u64)
    ensures
        synth::draw64(s).1 % 4 == 0 ==> synth::draw_value(s).1 == synth::draw64(synth::draw64(s).0).1 % 1000,
        synth::draw64(s).1 % 4 == 1 ==> synth::draw_value(s).1 == synth::draw64(synth::draw64(s).0).1 % 1_000_000_000,
        synth::draw64(s).1 % 4 == 2 ==> synth::draw_value(s).1 == synth::draw64(synth::draw64(s).0).1,
        synth::draw64(s).1 % 4 == 3 ==> synth::draw_value(s).1 == synth::draw64(synth::draw64(s).0).1 * 0x1_0000_0000_0000_0000
            + synth::draw64(synth::draw64(synth::draw64(s).0).0).1,
{
    let hi = synth::draw64(synth::draw64(s).0).1;
    let lo = synth::draw64(synth::draw64(synth::draw64(s).0).0).1;
    assert(((hi as u128) << 64) | lo as u128 == hi as u128 * 0x1_0000_0000_0000_0000 + lo) by (bit_vector);
}

/// Some state draws the empty value, in each distribution.
pub proof fn lemma_empty_drawn(dist: ValueDist)
    ensures
        exists|s: u64| (#[trigger] verify::draw_stored(s, dist)).1.len() == 0,
{
    let s = 0x61C8864680B583EBu64;
    assert(s.wrapping_add(0x9E3779B97F4A7C15) == 0);
    assert(0u64 ^ (0u64 >> 30) == 0 && 0u64 ^ (0u64 >> 27) == 0 && 0u64 ^ (0u64 >> 31) == 0) by (bit_vector);
    assert(0u64.wrapping_mul(0xBF58476D1CE4E5B9) == 0);
    assert(0u64.wrapping_mul(0x94D049BB133111EB) == 0);
    assert(synth::draw64(s).1 == 0);
    assert(verify::draw_stored(s, dist).1.len() == 0);
}

/* ─────────────── cases ─────────────── */

/// The key that the `i`th template of a list gives.
pub open spec fn key_at(keys: Seq<KeyTemplate>, calldata: Seq<u8>, i: int) -> Option<Seq<u8>> {
    synth::template_key(keys[i], calldata)
}

/// The state from which the value of the `i`th key is drawn.
pub open spec fn state_at(s: u64, keys: Seq<KeyTemplate>, calldata: Seq<u8>, dist: ValueDist, i: int) -> u64 {
    verify::draw_storage(s, keys, i as nat, calldata, dist).0
}

/// Of the storage that is drawn for a list of keys: a key of one template alone is left
/// out exactly where the number drawn for it asks for the empty value, and has the value
/// drawn for it else. What is no key of the list is left out.
pub proof fn lemma_storage_drawn(s: u64, keys: Seq<KeyTemplate>, n: nat, calldata: Seq<u8>, dist: ValueDist, i: int, key: Seq<u8>)
    requires
        n <= keys.len(),
    ensures
        (forall|j: int| 0 <= j < n ==> #[trigger] key_at(keys, calldata, j) != Some(key))
            ==> !verify::draw_storage(s, keys, n, calldata, dist).1.dom().contains(key),
        0 <= i < n && key_at(keys, calldata, i) == Some(key) && (forall|j: int|
            0 <= j < n && j != i ==> #[trigger] key_at(keys, calldata, j) != Some(key)) ==> {
            let m = verify::draw_storage(s, keys, n, calldata, dist).1;
            &&& m.dom().contains(key) <==> !asks_for_empty(state_at(s, keys, calldata, dist, i), dist)
            &&& m.dom().contains(key) ==> m[key] == verify::draw_stored(state_at(s, keys, calldata, dist, i), dist).1
        },
    decreases n,
{
    if n > 0 {
        lemma_storage_drawn(s, keys, (n - 1) as nat, calldata, dist, i, key);
        lemma_values_drawn(state_at(s, keys, calldata, dist, n - 1), dist);
        assert(key_at(keys, calldata, n - 1) == synth::template_key(keys[n - 1], calldata));
    }
}

/// No key of a drawn storage holds the empty value.
pub proof fn lemma_stored_something(s: u64, keys: Seq<KeyTemplate>, n: nat, calldata: Seq<u8>, dist: ValueDist, key: Seq<u8>)
    requires
        n <= keys.len(),
    ensures
        verify::draw_storage(s, keys, n, calldata, dist).1.dom().contains(key)
            ==> verify::draw_storage(s, keys, n, calldata, dist).1[key].len() > 0,
    decreases n,
{
    if n > 0 {
        lemma_stored_something(s, keys, (n - 1) as nat, calldata, dist, key);
    }
}

/// A case has a height below two million, as many arguments as the keys were found with,
/// and the world that every probe sees otherwise.
pub proof fn lemma_case_drawn(set: KeySet, s: u64, dist: ValueDist)
    ensures
        verify::draw_case(set, s, dist).args.len() == set.arg_count,
        verify::draw_case(set, s, dist).oracle.height < 2_000_000,
        verify::draw_case(set, s, dist).oracle.height == synth::draw64(s).1 % 2_000_000,
        verify::draw_case(set, s, dist).oracle.myself == (2u128, 7777u128),
        verify::draw_case(set, s, dist).oracle.caller == (0u128, 0u128),
        verify::draw_case(set, s, dist).oracle.vout == 4,
        verify::draw_case(set, s, dist).oracle.incoming.len() == 0,
        verify::draw_case(set, s, dist).oracle.storage == verify::draw_storage(
            synth::draw_args(synth::draw64(s).0, set.arg_count).0,
            set.keys,
            set.keys.len(),
            bytes::words_bytes(verify::draw_case(set, s, dist).args),
            dist,
        ).1,
{
    lemma_args_drawn(synth::draw64(s).0, set.arg_count);
}

/// Arguments are drawn one after the other, each a storage integer.
pub proof fn lemma_args_drawn(s: u64, n: nat)
    ensures
        synth::draw_args(s, n).1.len() == n,
        synth::draw_args(s, n + 1).1 == synth::draw_args(s, n).1.push(synth::draw_value(synth::draw_args(s, n).0).1),
        synth::draw_args(s, n + 1).0 == synth::draw_value(synth::draw_args(s, n).0).0,
    decreases n,
{
    if n > 0 {
        lemma_args_drawn(s, (n - 1) as nat);
    }
}

/* ─────────────── comparing ─────────────── */

/// The bytes that a plan gives in a case.
pub open spec fn plan_bytes(e: BytesTerm, c: Case) -> Result<Seq<u8>, PlanError> {
    eval::bytes_value(e, World { storage: c.oracle.storage, height: c.oracle.height, words: c.args }, None)
}

/// An attempt counts exactly if the wasm succeeds and the plan gives the same bytes. One
/// in which the wasm traps or is disqualified counts for nothing, and goes on from the
/// state past its case; one in which the wasm succeeds with other bytes, or the plan
/// fails, rejects the plan for good.
pub proof fn lemma_attempt(p: ProberModel, opcode: u128, cases: spec_fn(u64) -> Option<Case>, e: BytesTerm, trials: u32, seed: u64, k: nat, s: u64, n: u32, c: Case)
    requires
        verify::progress(p, opcode, cases, e, trials, seed, k) == Some((s, n)),
        n < trials,
        cases(s) == Some(c),
        p.outcome(opcode, c.args, c.oracle) is Ok,
    ensures
        match p.outcome(opcode, c.args, c.oracle)->Ok_0.outcome {
            OutcomeModel::Success(data) => if plan_bytes(e, c) == Ok::<Seq<u8>, PlanError>(data) {
                verify::progress(p, opcode, cases, e, trials, seed, k + 1) == Some((c.state, (n + 1) as u32))
            } else {
                forall|m: nat| m > k ==> #[trigger] verify::progress(p, opcode, cases, e, trials, seed, m) is None
            },
            _ => verify::progress(p, opcode, cases, e, trials, seed, k + 1) == Some((c.state, n)),
        },
{
    if verify::progress(p, opcode, cases, e, trials, seed, k + 1) is None {
        assert forall|m: nat| m > k implies #[trigger] verify::progress(p, opcode, cases, e, trials, seed, m) is None by {
            lemma_rejected(p, opcode, cases, e, trials, seed, k + 1, m);
        }
    }
}

proof fn lemma_rejected(p: ProberModel, opcode: u128, cases: spec_fn(u64) -> Option<Case>, e: BytesTerm, trials: u32, seed: u64, k: nat, m: nat)
    requires
        k <= m,
        verify::progress(p, opcode, cases, e, trials, seed, k) is None,
    ensures
        verify::progress(p, opcode, cases, e, trials, seed, m) is None,
    decreases m,
{
    if k < m {
        lemma_rejected(p, opcode, cases, e, trials, seed, k, (m - 1) as nat);
    }
}

/// Nothing has passed before the first attempt, and nothing more is tried once as many
/// comparisons as were asked for have passed.
pub proof fn lemma_attempts_bounded(p: ProberModel, opcode: u128, cases: spec_fn(u64) -> Option<Case>, e: BytesTerm, trials: u32, seed: u64, k: nat)
    ensures
        verify::progress(p, opcode, cases, e, trials, seed, 0) == Some((seed, 0u32)),
        verify::progress(p, opcode, cases, e, trials, seed, k) matches Some((s, n)) && n >= trials
            ==> verify::progress(p, opcode, cases, e, trials, seed, k + 1) == verify::progress(p, opcode, cases, e, trials, seed, k),
        verify::max_attempts(trials) >= trials,
        trials + 32 <= u32::MAX ==> verify::max_attempts(trials) >= trials + 32,
        8 * trials <= u32::MAX ==> verify::max_attempts(trials) >= 8 * trials,
        verify::max_attempts(trials) <= u32::MAX,
        verify::max_attempts(trials) <= trials + 32 || verify::max_attempts(trials) <= 8 * trials,
        verify::passed(p, opcode, cases, e, trials, seed) matches Some(n) ==> (verify::progress(
            p,
            opcode,
            cases,
            e,
            trials,
            seed,
            verify::max_attempts(trials) as nat,
        ) matches Some((_, m)) && m == n && n >= trials),
{
}

/// A plan that passed was compared in every attempt that left a key unset, if the wasm
/// succeeded there: it gives, without a value under that key, what the wasm gives.
pub proof fn lemma_verified_unset(p: ProberModel, opcode: u128, set: KeySet, dist: ValueDist, e: BytesTerm, trials: u32, seed: u64, k: nat, s: u64, n: u32, i: int, key: Seq<u8>)
    requires
        verify::passed(p, opcode, verify::model_cases(set, dist), e, trials, seed) is Some,
        k < verify::max_attempts(trials),
        verify::progress(p, opcode, verify::model_cases(set, dist), e, trials, seed, k) == Some((s, n)),
        n < trials,
        0 <= i < set.keys.len(),
        key_at(set.keys, bytes::words_bytes(verify::draw_case(set, s, dist).args), i) == Some(key),
        forall|j: int| 0 <= j < set.keys.len() && j != i
            ==> #[trigger] key_at(set.keys, bytes::words_bytes(verify::draw_case(set, s, dist).args), j) != Some(key),
        asks_for_empty(
            state_at(
                synth::draw_args(synth::draw64(s).0, set.arg_count).0,
                set.keys,
                bytes::words_bytes(verify::draw_case(set, s, dist).args),
                dist,
                i,
            ),
            dist,
        ),
    ensures
        !verify::draw_case(set, s, dist).oracle.storage.dom().contains(key),
        p.outcome(opcode, verify::draw_case(set, s, dist).args, verify::draw_case(set, s, dist).oracle) matches Ok(run) && (
        run.outcome matches OutcomeModel::Success(data) ==> plan_bytes(e, verify::draw_case(set, s, dist)) == Ok::<
            Seq<u8>,
            PlanError,
        >(data)),
{
    let c = verify::draw_case(set, s, dist);
    lemma_case_drawn(set, s, dist);
    lemma_storage_drawn(
        synth::draw_args(synth::draw64(s).0, set.arg_count).0,
        set.keys,
        set.keys.len(),
        bytes::words_bytes(c.args),
        dist,
        i,
        key,
    );
    verify::lemma_verified(p, opcode, verify::model_cases(set, dist), e, trials, seed, k);
    assert(verify::model_cases(set, dist)(s) == Some(c));
}

/* ─────────────── keys ─────────────── */

/// The expression of a key template gives, in a world, the key that the template gives
/// with the world's calldata.
pub proof fn lemma_template_value(t: KeyTemplate, w: World)
    ensures
        synth::template_key(t, bytes::words_bytes(w.words)) matches Some(key) ==> eval::bytes_value(synth::template_term(t), w, None) == Ok::<
            Seq<u8>,
            PlanError,
        >(key),
        synth::template_key(t, bytes::words_bytes(w.words)) matches Some(key) ==> eval::bytes_value(synth::stored_term(t), w, None) == Ok::<
            Seq<u8>,
            PlanError,
        >(w.value(key)),
{
    if let KeyTemplate::Templated { prefix, suffix, cd_start, cd_len } = t {
        let cd = BytesTerm::Calldata { start: cd_start, len: Some(cd_len) };
        let parts = synth::literal_part(prefix) + seq![cd] + synth::literal_part(suffix);
        let ahead = synth::literal_part(prefix) + seq![cd];
        reveal_with_fuel(eval::concat_value, 4);
        reveal_with_fuel(eval::bytes_value, 4);
        let all = bytes::words_bytes(w.words);
        if cd_start + cd_len <= all.len() {
            let middle = all.subrange(cd_start as int, cd_start + cd_len);
            assert(eval::bytes_value(cd, w, None) == Ok::<Seq<u8>, PlanError>(middle));
            assert(ahead.drop_last() =~= synth::literal_part(prefix));
            if prefix.len() > 0 {
                assert(synth::literal_part(prefix).drop_last() =~= Seq::<BytesTerm>::empty());
                assert(eval::concat_value(synth::literal_part(prefix), w, None) == Ok::<Seq<u8>, PlanError>(Seq::<u8>::empty() + prefix));
            }
            assert(Seq::<u8>::empty() + prefix =~= prefix);
            assert(eval::concat_value(synth::literal_part(prefix), w, None) == Ok::<Seq<u8>, PlanError>(prefix));
            assert(eval::concat_value(ahead, w, None) == Ok::<Seq<u8>, PlanError>(prefix + middle));
            if suffix.len() > 0 {
                assert(parts.drop_last() =~= ahead);
                assert(eval::concat_value(parts, w, None) == Ok::<Seq<u8>, PlanError>(prefix + middle + suffix));
            } else {
                assert(parts =~= ahead);
                assert(prefix + middle + suffix =~= prefix + middle);
            }
        }
    }
}

/// A constant template gives its key with any calldata; another gives its prefix, the
/// calldata of its range and its suffix, and nothing where the calldata ends before the
/// range does.
pub proof fn lemma_template_key(b: Seq<u8>, prefix: Seq<u8>, suffix: Seq<u8>, cd_start: u32, cd_len: u32, calldata: Seq<u8>, i: int)
    ensures
        synth::template_key(KeyTemplate::Const(b), calldata) == Some(b),
        synth::template_key(KeyTemplate::Templated { prefix, suffix, cd_start, cd_len }, calldata) is Some <==> cd_start + cd_len
            <= calldata.len(),
        synth::template_key(KeyTemplate::Templated { prefix, suffix, cd_start, cd_len }, calldata) matches Some(key) ==> {
            &&& key.len() == prefix.len() + cd_len + suffix.len()
            &&& 0 <= i < prefix.len() ==> key[i] == prefix[i]
            &&& 0 <= i < cd_len ==> key[prefix.len() + i] == calldata[cd_start + i]
            &&& 0 <= i < suffix.len() ==> key[prefix.len() + cd_len + i] == suffix[i]
        },
{
}

} // verus!
