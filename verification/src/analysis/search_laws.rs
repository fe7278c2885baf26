//! What finding the keys of a method, lists among them, and planning its views promise.
use vstd::prelude::*;
use crate::abi::{DocumentModel, IoMode, IoModel, MethodKind};
use crate::analysis;
use crate::analysis::fit;
use crate::analysis::host;
use crate::analysis::host::{ProbeFault, ProberModel, RunModel};
use crate::analysis::laws;
use crate::analysis::list;
use crate::analysis::list::BaseModel;
use crate::analysis::synth;
use crate::analysis::synth::{Baseline, KeySet, KeyTemplate, Observed};
use crate::analysis::verify;
use crate::analysis::verify::ValueDist;
use crate::analysis::AnalysisConfig;
use crate::bytes;
use crate::plan::eval;
use crate::plan::BytesTerm;
use crate::schema::SchemaTree;
use crate::text;

verus! {

/* ─────────────── discovery ─────────────── */

proof fn lemma_baseline(p: ProberModel, opcode: u128, n: nat, k: nat, i: int)
    ensures
        synth::baseline(p, opcode, n, k) matches Baseline::Runs(_, runs) ==> {
            &&& runs.len() == k
            &&& 0 <= i < k ==> runs[i].args.len() == n && p.outcome(opcode, runs[i].args, host::default_oracle()) == Ok::<RunModel, ProbeFault>(
                runs[i].run,
            ) && !(runs[i].run.outcome is Disqualified)
        },
    decreases k,
{
    if k > 0 {
        lemma_baseline(p, opcode, n, (k - 1) as nat, i);
        if let Baseline::Runs(s, runs) = synth::baseline(p, opcode, n, (k - 1) as nat) {
            laws::lemma_args_drawn(s, n);
        }
    }
}

proof fn lemma_prefix_bound(runs: Seq<Observed>, slot: int, from: nat)
    requires
        from <= runs[0].run.keys[slot].len(),
    ensures
        from <= synth::common_prefix(runs, slot, from) <= runs[0].run.keys[slot].len(),
    decreases runs[0].run.keys[slot].len() - from,
{
    if from < runs[0].run.keys[slot].len() && synth::agree_at(runs, slot, from as int) {
        lemma_prefix_bound(runs, slot, from + 1);
    }
}

proof fn lemma_suffix_bound(runs: Seq<Observed>, slot: int, limit: nat, from: nat)
    requires
        from <= limit,
    ensures
        from <= synth::common_suffix(runs, slot, limit, from) <= limit,
    decreases limit - from,
{
    if from < limit && synth::agree_at(runs, slot, runs[0].run.keys[slot].len() - 1 - from) {
        lemma_suffix_bound(runs, slot, limit, from + 1);
    }
}

/// The template of a slot gives, with the calldata of each run, the key that the run
/// read there.
pub proof fn lemma_slot(runs: Seq<Observed>, slot: int, k: int)
    requires
        0 <= k < runs.len(),
        forall|j: int| 0 <= j < runs.len() ==> 16 * (#[trigger] runs[j]).args.len() <= u32::MAX,
    ensures
        synth::slot_template(runs, slot) matches Some(t) ==> synth::template_key(t, bytes::words_bytes(runs[k].args)) == Some(
            runs[k].run.keys[slot],
        ),
{
    if let Some(t) = synth::slot_template(runs, slot) {
        if forall|k: int| 0 <= k < runs.len() ==> (#[trigger] runs[k]).run.keys[slot] == runs[0].run.keys[slot] {
            assert(runs[k].run.keys[slot] == runs[0].run.keys[slot]);
        } else {
            let key0 = runs[0].run.keys[slot];
            let pre = synth::common_prefix(runs, slot, 0) as int;
            lemma_prefix_bound(runs, slot, 0);
            let suf = synth::common_suffix(runs, slot, (key0.len() - pre) as nat, 0) as int;
            lemma_suffix_bound(runs, slot, (key0.len() - pre) as nat, 0);
            let len = key0.len() - pre - suf;
            let cd0 = bytes::words_bytes(runs[0].args);
            let needle = key0.subrange(pre, pre + len);
            bytes::lemma_find_first_found(cd0, needle);
            let start = bytes::find_first(cd0, needle)->Some_0;
            assert(bytes::occurs_at(cd0, needle, start));
            bytes::lemma_words_bytes_len(runs[0].args);
            assert(16 * runs[0].args.len() <= u32::MAX);
            assert(start as u32 == start && len as u32 == len);
            assert(synth::rebuilds(runs, slot, pre, len, start));
            let cd = bytes::words_bytes(runs[k].args);
            assert(start + len <= cd.len());
            assert(key0.take(pre) + cd.subrange(start, start + len) + key0.skip(pre + len) == runs[k].run.keys[slot]);
        }
    }
}

proof fn lemma_slots(runs: Seq<Observed>, n: nat, i: int)
    ensures
        synth::slot_templates(runs, n) matches Some(ts) ==> {
            &&& ts.len() == n
            &&& 0 <= i < n ==> synth::slot_template(runs, i) == Some(ts[i])
        },
    decreases n,
{
    if n > 0 {
        lemma_slots(runs, (n - 1) as nat, i);
    }
}

/// What is discovered of a method: at most eight keys, for the arguments it was probed
/// with. In each of six runs against an empty storage, none of them disqualified, the
/// templates give with the calldata exactly the keys that the run read, in order.
pub proof fn lemma_discovered(p: ProberModel, opcode: u128, n: nat, set: KeySet, k: int, slot: int)
    requires
        16 * n <= u32::MAX,
        synth::discovered(p, opcode, n) == Ok::<Option<KeySet>, ProbeFault>(Some(set)),
        0 <= k < 6,
    ensures
        set.arg_count == n,
        set.keys.len() <= 8,
        synth::baseline(p, opcode, n, 6) matches Baseline::Runs(_, runs) && runs.len() == 6 && {
            &&& runs[k].args.len() == n
            &&& p.outcome(opcode, runs[k].args, host::default_oracle()) == Ok::<RunModel, ProbeFault>(runs[k].run)
            &&& !(runs[k].run.outcome is Disqualified)
            &&& runs[k].run.keys.len() == set.keys.len()
            &&& 0 <= slot < set.keys.len() ==> synth::template_key(set.keys[slot], bytes::words_bytes(runs[k].args)) == Some(
                runs[k].run.keys[slot],
            )
        },
{
    lemma_baseline(p, opcode, n, 6, k);
    lemma_baseline(p, opcode, n, 6, 0);
    if let Baseline::Runs(s, runs) = synth::baseline(p, opcode, n, 6) {
        assert(runs[k].run.keys.len() == runs[0].run.keys.len());
        assert forall|j: int| 0 <= j < runs.len() implies 16 * (#[trigger] runs[j]).args.len() <= u32::MAX by {
            lemma_baseline(p, opcode, n, 6, j);
        }
        lemma_slots(runs, runs[0].run.keys.len(), slot);
        if 0 <= slot < set.keys.len() {
            lemma_slot(runs, slot, k);
        }
    }
}

/// Whether a method succeeds and reads the same keys, whatever it is called with and
/// whatever is stored.
pub open spec fn reads_always(p: ProberModel, opcode: u128, keys: Seq<Seq<u8>>) -> bool {
    forall|args: Seq<u128>, o: host::OracleModel| (#[trigger] p.outcome(opcode, args, o)) matches Ok(run) && run.outcome is Success && run.keys
        == keys
}

proof fn lemma_baseline_reads(p: ProberModel, opcode: u128, n: nat, k: nat, keys: Seq<Seq<u8>>)
    requires
        reads_always(p, opcode, keys),
    ensures
        synth::baseline(p, opcode, n, k) is Runs,
    decreases k,
{
    if k > 0 {
        lemma_baseline_reads(p, opcode, n, (k - 1) as nat, keys);
        if let Baseline::Runs(s, runs) = synth::baseline(p, opcode, n, (k - 1) as nat) {
            let args = synth::draw_args(s, n).1;
            assert(p.outcome(opcode, args, host::default_oracle()) is Ok);
        }
    }
}

proof fn lemma_stable_reads(p: ProberModel, opcode: u128, n: nat, o: host::OracleModel, s: u64, k: nat, keys: Seq<Seq<u8>>)
    requires
        reads_always(p, opcode, keys),
    ensures
        synth::stable(p, opcode, n, o, keys.len(), s, k) matches Ok(Some(_)),
    decreases k,
{
    if k > 0 {
        lemma_stable_reads(p, opcode, n, o, s, (k - 1) as nat, keys);
        if let Ok(Some((t, _))) = synth::stable(p, opcode, n, o, keys.len(), s, (k - 1) as nat) {
            let args = synth::draw_args(t, n).1;
            assert(p.outcome(opcode, args, o) is Ok);
        }
    }
}

proof fn lemma_slots_constant(runs: Seq<Observed>, n: nat, keys: Seq<Seq<u8>>)
    requires
        n <= keys.len(),
        runs.len() > 0,
        forall|k: int| 0 <= k < runs.len() ==> (#[trigger] runs[k]).run.keys == keys,
    ensures
        synth::slot_templates(runs, n) == Some(Seq::new(n, |i: int| KeyTemplate::Const(keys[i]))),
    decreases n,
{
    if n > 0 {
        lemma_slots_constant(runs, (n - 1) as nat, keys);
        assert(synth::slot_template(runs, n - 1) == Some(KeyTemplate::Const(keys[n - 1])));
        assert(Seq::new(n, |i: int| KeyTemplate::Const(keys[i])) =~= Seq::new((n - 1) as nat, |i: int| KeyTemplate::Const(keys[i])).push(
            KeyTemplate::Const(keys[n - 1]),
        ));
    } else {
        assert(Seq::new(0, |i: int| KeyTemplate::Const(keys[i])) =~= Seq::<KeyTemplate>::empty());
    }
}

/// A method that always succeeds and reads the same keys, at most eight, is discovered
/// with exactly those keys; one that reads more is not.
pub proof fn lemma_constant_keys(p: ProberModel, opcode: u128, n: nat, keys: Seq<Seq<u8>>)
    requires
        reads_always(p, opcode, keys),
    ensures
        keys.len() <= 8 ==> synth::discovered(p, opcode, n) == Ok::<Option<KeySet>, ProbeFault>(
            Some(KeySet { keys: Seq::new(keys.len(), |i: int| KeyTemplate::Const(keys[i])), arg_count: n }),
        ),
        keys.len() > 8 ==> synth::discovered(p, opcode, n) == Ok::<Option<KeySet>, ProbeFault>(None),
{
    lemma_baseline_reads(p, opcode, n, 6, keys);
    if let Baseline::Runs(s, runs) = synth::baseline(p, opcode, n, 6) {
        assert forall|k: int| 0 <= k < runs.len() implies (#[trigger] runs[k]).run.keys == keys && runs[k].run.outcome is Success by {
            lemma_baseline(p, opcode, n, 6, k);
            assert(p.outcome(opcode, runs[k].args, host::default_oracle()) is Ok);
        }
        lemma_baseline(p, opcode, n, 6, 0);
        assert(!(runs[0].run.outcome is Trap));
        assert(!synth::all_trap(runs));
        let (t, storage) = synth::filled(s, synth::all_keys(runs));
        lemma_stable_reads(p, opcode, n, host::OracleModel { storage, ..host::default_oracle() }, t, 4, keys);
        lemma_slots_constant(runs, keys.len(), keys);
        if keys.len() == 0 {
            assert(Seq::new(0, |i: int| KeyTemplate::Const(keys[i])) =~= Seq::<KeyTemplate>::empty());
        }
    }
}

/// The storage that discovery fills holds 16 bytes under every key that was read, and
/// nothing else.
pub proof fn lemma_filled(s: u64, keys: Seq<Seq<u8>>, key: Seq<u8>)
    ensures
        synth::filled(s, keys).1.dom().contains(key) <==> keys.contains(key),
        keys.contains(key) ==> synth::filled(s, keys).1[key].len() == 16,
    decreases keys.len(),
{
    if keys.len() > 0 {
        let before = keys.drop_last();
        lemma_filled(s, before, key);
        let v = synth::draw128(synth::filled(s, before).0).1;
        bytes::lemma_le_bytes_len(v as int, 16);
        if keys.contains(key) && key != keys.last() {
            let i = choose|i: int| 0 <= i < keys.len() && keys[i] == key;
            assert(before[i] == key);
        }
        if before.contains(key) {
            let i = choose|i: int| 0 <= i < before.len() && before[i] == key;
            assert(keys[i] == key);
        }
        assert(keys[keys.len() - 1] == keys.last());
    }
}

/// The keys of all runs are those of each, and no others.
pub proof fn lemma_all_keys(runs: Seq<Observed>, key: Seq<u8>)
    ensures
        synth::all_keys(runs).contains(key) <==> exists|k: int| 0 <= k < runs.len() && (#[trigger] runs[k]).run.keys.contains(key),
    decreases runs.len(),
{
    if runs.len() > 0 {
        let before = runs.drop_last();
        lemma_all_keys(before, key);
        let ahead = synth::all_keys(before);
        let last = runs.last().run.keys;
        assert(runs.last() == runs[runs.len() - 1]);
        if synth::all_keys(runs).contains(key) {
            let i = choose|i: int| 0 <= i < synth::all_keys(runs).len() && synth::all_keys(runs)[i] == key;
            if i < ahead.len() {
                assert(ahead[i] == key);
                let k = choose|k: int| 0 <= k < before.len() && (#[trigger] before[k]).run.keys.contains(key);
                assert(runs[k] == before[k]);
            } else {
                assert(last[i - ahead.len()] == key);
            }
        }
        if exists|k: int| 0 <= k < runs.len() && (#[trigger] runs[k]).run.keys.contains(key) {
            let k = choose|k: int| 0 <= k < runs.len() && (#[trigger] runs[k]).run.keys.contains(key);
            if k < before.len() {
                assert(before[k] == runs[k]);
                let i = choose|i: int| 0 <= i < ahead.len() && ahead[i] == key;
                assert(synth::all_keys(runs)[i] == key);
            } else {
                let i = choose|i: int| 0 <= i < last.len() && last[i] == key;
                assert(synth::all_keys(runs)[ahead.len() + i] == key);
            }
        }
    }
}

/* ─────────────── lists ─────────────── */

/// Characters as the bytes of their ASCII codes.
pub open spec fn ascii(s: Seq<char>) -> Seq<u8> {
    Seq::new(s.len(), |i: int| s[i] as u8)
}

proof fn lemma_decimal_ascii(n: int)
    requires
        n >= 0,
    ensures
        eval::decimal_ascii(n) == ascii(text::decimal(n)),
    decreases n,
{
    if n >= 10 {
        lemma_decimal_ascii(n / 10);
        assert(eval::decimal_ascii(n) =~= ascii(text::decimal(n)));
    } else {
        assert(eval::decimal_ascii(n) =~= ascii(text::decimal(n)));
    }
}

/// The length of a list stands under its base and `/length`, an element under its base, a
/// slash and its index in decimal. No two of these keys are the same.
pub proof fn lemma_list_keys(base: Seq<u8>, i: int, j: int)
    requires
        0 <= i,
        0 <= j,
    ensures
        list::length_key_of(base) == base + ascii("/length"@),
        list::element_key_of(base, i) == base + ascii("/"@ + text::decimal(i)),
        list::element_key_of(base, i) != list::length_key_of(base),
        i != j ==> list::element_key_of(base, i) != list::element_key_of(base, j),
{
    reveal_strlit("/length");
    reveal_strlit("/");
    assert(list::length_suffix() =~= ascii("/length"@));
    lemma_decimal_ascii(i);
    lemma_decimal_ascii(j);
    assert(list::element_key_of(base, i) =~= base + ascii("/"@ + text::decimal(i)));
    text::lemma_decimal_digits(i);
    text::lemma_decimal_digits(j);
    text::lemma_digits_value_of_decimal(i);
    text::lemma_digits_value_of_decimal(j);
    let di = text::decimal(i);
    let dj = text::decimal(j);
    let at = base.len() as int;
    assert(list::length_key_of(base)[at + 1] == 108);
    assert(list::element_key_of(base, i)[at + 1] == ascii(di)[0]);
    assert(ascii(di)[0] == di[0] as u8);
    if i != j && list::element_key_of(base, i) == list::element_key_of(base, j) {
        let a = list::element_key_of(base, i);
        assert(di.len() == dj.len());
        assert forall|k: int| 0 <= k < di.len() implies di[k] == dj[k] by {
            assert(list::element_key_of(base, i)[at + 1 + k] == ascii(di)[k]);
            assert(list::element_key_of(base, j)[at + 1 + k] == ascii(dj)[k]);
            assert(text::digit_value(di[k]) is Some && text::digit_value(dj[k]) is Some);
        }
        assert(di =~= dj);
        assert(false);
    }
}

proof fn lemma_blob(s: u64, n: nat)
    ensures
        list::draw_blob(s, n).1.len() == n,
    decreases n,
{
    if n > 0 {
        lemma_blob(s, (n - 1) as nat);
    }
}

proof fn lemma_drawn_elements(s: u64, m: Map<Seq<u8>, Seq<u8>>, base: Seq<u8>, n: nat, i: int)
    requires
        0 <= i,
    ensures
        list::draw_elements(s, m, base, n).1.dom().contains(list::length_key_of(base)) == m.dom().contains(list::length_key_of(base)),
        m.dom().contains(list::length_key_of(base)) ==> list::draw_elements(s, m, base, n).1[list::length_key_of(base)]
            == m[list::length_key_of(base)],
        i < n ==> list::draw_elements(s, m, base, n).1.dom().contains(list::element_key_of(base, i))
            && 1 <= list::draw_elements(s, m, base, n).1[list::element_key_of(base, i)].len() <= 40,
        i >= n ==> list::draw_elements(s, m, base, n).1.dom().contains(list::element_key_of(base, i)) == m.dom().contains(
            list::element_key_of(base, i),
        ),
    decreases n,
{
    if n > 0 {
        lemma_drawn_elements(s, m, base, (n - 1) as nat, i);
        lemma_list_keys(base, n - 1, i);
        let t = list::draw_elements(s, m, base, (n - 1) as nat).0;
        let (u, len) = synth::draw64(t);
        lemma_blob(u, (len % 40 + 1) as nat);
    }
}

/// A list case holds, under the base of its height, a list of at most five elements of 1
/// to 40 bytes each and its length, or nothing at all where the list is empty.
pub proof fn lemma_list_case(t: BaseModel, arg_count: nat, s: u64, i: int)
    requires
        0 <= i,
    ensures
        ({
            let c = list::draw_list_case(t, arg_count, s);
            let base = list::base_key(t, c.oracle.height);
            let count = synth::draw64(synth::draw_args(synth::draw64(s).0, arg_count).0).1 % 6;
            let kept = bytes::value_at(c.oracle.storage, list::length_key_of(base));
            &&& c.args.len() == arg_count
            &&& c.oracle.height < 2_000_000
            &&& count == 0 ==> c.oracle.storage == Map::<Seq<u8>, Seq<u8>>::empty()
            &&& bytes::le_num(kept) == count
            &&& i < count ==> 1 <= bytes::value_at(c.oracle.storage, list::element_key_of(base, i)).len() <= 40
            &&& i >= count ==> bytes::value_at(c.oracle.storage, list::element_key_of(base, i)).len() == 0
        }),
{
    let c = list::draw_list_case(t, arg_count, s);
    let base = list::base_key(t, c.oracle.height);
    laws::lemma_args_drawn(synth::draw64(s).0, arg_count);
    let (a, n) = synth::draw64(synth::draw_args(synth::draw64(s).0, arg_count).0);
    let count = n % 6;
    let m = Map::<Seq<u8>, Seq<u8>>::empty().insert(list::length_key_of(base), bytes::le_bytes(count as int, 4));
    lemma_drawn_elements(a, m, base, count as nat, i);
    lemma_list_keys(base, i, i);
    bytes::lemma_pow256_16();
    bytes::lemma_le_round_trip(count as int, 4);
}

/// The only key that a run reads shows a list exactly if it is a base and `/length`.
pub proof fn lemma_list_base(run: RunModel, base: Seq<u8>)
    ensures
        run.outcome is Success && run.keys == seq![base + ascii("/length"@)] ==> list::list_base(run) == Some(base),
        list::list_base(run) == Some(base) ==> run.outcome is Success && run.keys == seq![base + ascii("/length"@)],
{
    reveal_strlit("/length");
    let tail = list::length_suffix();
    assert(tail =~= ascii("/length"@));
    let key = base + tail;
    assert(key.subrange(key.len() - tail.len(), key.len() as int) =~= tail);
    assert(key.take(key.len() - 7) =~= base);
    if list::list_base(run) == Some(base) {
        assert(run.keys[0] =~= base + tail);
        assert(run.keys =~= seq![base + ascii("/length"@)]);
    }
}

/// A list template is that of a method which, with nothing stored, reads the length of a
/// list at the probe's height and no other key, and with a length of three the first
/// three elements.
pub proof fn lemma_list_template(p: ProberModel, opcode: u128, arg_count: nat, t: BaseModel, i: int)
    requires
        list::list_template(p, opcode, arg_count) == Some(t),
        0 <= i < 3,
    ensures
        p.outcome(opcode, list::zero_args(arg_count), host::default_oracle()) matches Ok(run) && run.outcome is Success && run.keys == seq![
            list::length_key_of(list::base_key(t, 880_001)),
        ],
        p.outcome(opcode, list::zero_args(arg_count), list::three_elements(list::base_key(t, 880_001))) matches Ok(run)
            && run.outcome is Success && run.keys.contains(list::element_key_of(list::base_key(t, 880_001), i)),
        list::three_elements(list::base_key(t, 880_001)).storage == Map::<Seq<u8>, Seq<u8>>::empty().insert(
            list::length_key_of(list::base_key(t, 880_001)),
            seq![3u8, 0, 0, 0],
        ),
{
    let run = p.outcome(opcode, list::zero_args(arg_count), host::default_oracle())->Ok_0;
    let base = list::list_base(run)->Some_0;
    lemma_list_base(run, base);
    lemma_list_keys(base, 0, 0);
    list::lemma_templatized(base, 880_001);
    reveal_with_fuel(bytes::le_bytes, 5);
    assert(bytes::le_bytes(3, 4) =~= seq![3u8, 0, 0, 0]);
    assert(list::element_key_of(base, i) == list::element_key_of(list::base_key(t, 880_001), i));
}

/// A list plan reads the list of its method, and passed every trial that was asked for.
pub proof fn lemma_list_plan(p: ProberModel, opcode: u128, arg_count: nat, config: AnalysisConfig)
    ensures
        list::list_plan(p, opcode, arg_count, config) matches Some((e, trials)) ==> {
            &&& list::list_template(p, opcode, arg_count) matches Some(t) && e == list::list_term(t)
            &&& trials == config.verify_trials
        },
{
    if let Some(t) = list::list_template(p, opcode, arg_count) {
        let seed = config.verify_seed ^ (opcode as u64) ^ 0x1157;
        if verify::passed(p, opcode, list::list_cases(t, arg_count), list::list_term(t), config.verify_trials, seed) is Some {
            laws::lemma_attempts_bounded(p, opcode, list::list_cases(t, arg_count), list::list_term(t), config.verify_trials, seed, 0);
            verify::lemma_verified(p, opcode, list::list_cases(t, arg_count), list::list_term(t), config.verify_trials, seed, 0);
        }
    }
}

/* ─────────────── planning ─────────────── */

proof fn lemma_integer_fields(fields: Seq<(Seq<char>, SchemaTree)>, n: nat)
    requires
        n <= fields.len(),
        forall|i: int| 0 <= i < n ==> analysis::input_words((#[trigger] fields[i]).1) == Some(1nat),
    ensures
        analysis::fields_words(fields, n) == Some(n),
    decreases n,
{
    if n > 0 {
        lemma_integer_fields(fields, (n - 1) as nat);
    }
}

proof fn lemma_unknown_field(fields: Seq<(Seq<char>, SchemaTree)>, n: nat, i: int)
    requires
        0 <= i < n <= fields.len(),
        analysis::input_words(fields[i].1) is None,
    ensures
        analysis::fields_words(fields, n) is None,
    decreases n,
{
    if i < n - 1 {
        lemma_unknown_field(fields, (n - 1) as nat, i);
    }
}

/// An integer takes one calldata word, a struct of integers one for each field, and a
/// method without an input none. Four are assumed of any other primitive, of an enum, an
/// option, a list, an array or a reference, and of a struct with one of these in it.
pub proof fn lemma_arg_count(mode: IoMode, name: Seq<char>, s: SchemaTree, fields: Seq<(Seq<char>, SchemaTree)>, i: int)
    ensures
        analysis::arg_count(None) == 0,
        (name == "u8"@ || name == "u16"@ || name == "u32"@ || name == "u64"@ || name == "u128"@ || name == "i8"@ || name == "i16"@ || name
            == "i32"@ || name == "i64"@ || name == "i128"@) ==> analysis::arg_count(
            Some(IoModel { mode, schema: SchemaTree::Primitive(name) }),
        ) == 1,
        !(name == "u8"@ || name == "u16"@ || name == "u32"@ || name == "u64"@ || name == "u128"@ || name == "i8"@ || name == "i16"@ || name
            == "i32"@ || name == "i64"@ || name == "i128"@) ==> analysis::arg_count(
            Some(IoModel { mode, schema: SchemaTree::Primitive(name) }),
        ) == 4,
        !(s is Primitive) && !(s is Struct) ==> analysis::arg_count(Some(IoModel { mode, schema: s })) == 4,
        (forall|i: int| 0 <= i < fields.len() ==> (#[trigger] fields[i]).1 == SchemaTree::Primitive("u128"@)) && fields.len() <= usize::MAX
            ==> analysis::arg_count(Some(IoModel { mode, schema: SchemaTree::Struct(fields) })) == fields.len(),
        0 <= i < fields.len() && !(fields[i].1 is Primitive) && !(fields[i].1 is Struct) ==> analysis::arg_count(
            Some(IoModel { mode, schema: SchemaTree::Struct(fields) }),
        ) == 4,
{
    reveal_with_fuel(analysis::input_words, 3);
    assert(1 <= usize::MAX);
    if forall|i: int| 0 <= i < fields.len() ==> (#[trigger] fields[i]).1 == SchemaTree::Primitive("u128"@) {
        assert forall|i: int| 0 <= i < fields.len() implies analysis::input_words((#[trigger] fields[i]).1) == Some(1nat) by {}
        lemma_integer_fields(fields, fields.len());
    }
    if 0 <= i < fields.len() && !(fields[i].1 is Primitive) && !(fields[i].1 is Struct) {
        lemma_unknown_field(fields, fields.len(), i);
    }
}

/// A view without a plan gets the plan that is synthesized for it, if there is one; a
/// method that executes gets none.
pub proof fn lemma_views_planned(p: ProberModel, d: DocumentModel, config: AnalysisConfig, i: int)
    requires
        0 <= i < d.methods.len(),
    ensures
        analysis::planned_document(p, d, config).methods.len() == d.methods.len(),
        d.methods[i].kind == MethodKind::View && d.methods[i].plan is None ==> analysis::planned_document(p, d, config).methods[i].plan
            == analysis::synthesized(p, d.methods[i].opcode, analysis::arg_count(d.methods[i].input), config),
        d.methods[i].kind == MethodKind::Execute ==> analysis::planned_document(p, d, config).methods[i].plan == d.methods[i].plan,
{
    reveal(analysis::planned);
}

/// Whether an expression fits the samples of a distribution and passes its trials.
pub open spec fn holds_up(p: ProberModel, opcode: u128, set: KeySet, config: AnalysisConfig, dist: ValueDist, e: BytesTerm) -> bool {
    &&& fit::fitted(set, fit::samples_of(p, opcode, set, dist)) == Some(e)
    &&& verify::passed(
        p,
        opcode,
        verify::model_cases(set, dist),
        e,
        config.verify_trials,
        config.verify_seed ^ (opcode as u64),
    ) is Some
}

/// What holds up on integers is the plan; else what holds up on texts is. Nothing is
/// planned that holds up on neither.
pub proof fn lemma_synthesis(p: ProberModel, opcode: u128, args: usize, config: AnalysisConfig, set: KeySet, e: BytesTerm)
    requires
        synth::discovered(p, opcode, args as nat) == Ok::<Option<KeySet>, ProbeFault>(Some(set)),
    ensures
        holds_up(p, opcode, set, config, ValueDist::Integer, e) ==> (analysis::synthesized(p, opcode, args, config) matches Some(plan)
            && plan.0 == e),
        holds_up(p, opcode, set, config, ValueDist::Stringy, e) ==> analysis::synthesized(p, opcode, args, config) is Some,
        analysis::synthesized(p, opcode, args, config) matches Some(plan) ==> holds_up(
            p,
            opcode,
            set,
            config,
            ValueDist::Integer,
            plan.0,
        ) || holds_up(p, opcode, set, config, ValueDist::Stringy, plan.0),
{
}

/// Nothing is planned where no keys were discovered.
pub proof fn lemma_undiscovered(p: ProberModel, opcode: u128, args: usize, config: AnalysisConfig)
    ensures
        !(synth::discovered(p, opcode, args as nat) matches Ok(Some(_))) ==> analysis::synthesized(p, opcode, args, config) is None,
{
}

/// Every run of the stability test reads as many keys as was counted, and none of them is
/// disqualified.
pub proof fn lemma_stable_run(p: ProberModel, opcode: u128, n: nat, o: host::OracleModel, count: nat, s: u64, k: nat, t: u64, trapped: bool)
    requires
        synth::stable(p, opcode, n, o, count, s, k) == Ok::<Option<(u64, bool)>, ProbeFault>(Some((t, trapped))),
    ensures
        p.outcome(opcode, synth::draw_args(t, n).1, o) matches Ok(run) ==> {
            let next = synth::stable(p, opcode, n, o, count, s, k + 1);
            &&& run.outcome is Disqualified || run.keys.len() != count ==> next == Ok::<Option<(u64, bool)>, ProbeFault>(None)
            &&& !(run.outcome is Disqualified) && run.keys.len() == count ==> next == Ok::<Option<(u64, bool)>, ProbeFault>(
                Some((synth::draw_args(t, n).0, trapped && run.outcome is Trap)),
            )
        },
{
}

/// A method that answered anywhere keeps its keys; one that only trapped keeps them only if
/// it answers where fitting would sample it.
pub proof fn lemma_kept(p: ProberModel, opcode: u128, set: KeySet)
    ensures
        synth::kept(p, opcode, set, false) == Some(set),
        fit::answers(p, opcode, set, ValueDist::Integer) || fit::answers(p, opcode, set, ValueDist::Stringy) ==> synth::kept(p, opcode, set, true)
            == Some(set),
        !fit::answers(p, opcode, set, ValueDist::Integer) && !fit::answers(p, opcode, set, ValueDist::Stringy) ==> synth::kept(
            p,
            opcode,
            set,
            true,
        ) is None,
{
}

} // verus!
