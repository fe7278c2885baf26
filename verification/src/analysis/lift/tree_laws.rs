//! What the worlds that a view is lifted in, and the trees made of its runs, promise.
use vstd::prelude::*;
use crate::analysis::host;
use crate::analysis::host::{OracleModel, ProberModel};
use crate::analysis::laws;
use crate::analysis::lift;
use crate::analysis::lift::explore;
use crate::analysis::lift::machine::Executed;
use crate::analysis::lift::merge;
use crate::analysis::lift::merge::Observation;
use crate::analysis::lift::sym;
use crate::analysis::lift::view;
use crate::analysis::lift::view::Tally;
use crate::analysis::lift::worlds;
use crate::analysis::lift::worlds::{Method, ValueSource, WidthState};
use crate::analysis::synth;
use crate::bytes;
use crate::plan::eval;
use crate::plan::{BoolTerm, BytesTerm, PlanError, World};

verus! {

/* ─────────────── cases ─────────────── */

/// The state from which the value of the `i`th key is drawn.
pub open spec fn state_at(s: u64, keys: Seq<Seq<u8>>, widths: Map<Seq<u8>, usize>, i: int) -> u64 {
    lift::draw_widths(s, keys, i as nat, widths).0
}

/// Of the storage drawn for the keys that a run read, none of them twice: a key is left
/// unset exactly where the number drawn for it is a multiple of five, and has a storage
/// integer in the bytes of its width else. No other key is set.
pub proof fn lemma_widths_drawn(s: u64, keys: Seq<Seq<u8>>, n: nat, widths: Map<Seq<u8>, usize>, i: int, key: Seq<u8>)
    requires
        n <= keys.len(),
        keys.no_duplicates(),
    ensures
        !keys.take(n as int).contains(key) ==> !lift::draw_widths(s, keys, n, widths).1.dom().contains(key),
        0 <= i < n ==> {
            let m = lift::draw_widths(s, keys, n, widths).1;
            let t = state_at(s, keys, widths, i);
            &&& m.dom().contains(keys[i]) <==> synth::draw64(t).1 % 5 != 0
            &&& m.dom().contains(keys[i]) ==> m[keys[i]] == bytes::le_bytes(
                synth::draw_value(synth::draw64(t).0).1 as int,
                worlds::width_of(widths, keys[i]),
            )
        },
    decreases n,
{
    if n > 0 {
        let before = keys.take(n - 1);
        lemma_widths_drawn(s, keys, (n - 1) as nat, widths, i, key);
        lemma_widths_drawn(s, keys, (n - 1) as nat, widths, i, keys[n - 1]);
        if before.contains(keys[n - 1]) {
            let j = choose|j: int| 0 <= j < before.len() && before[j] == keys[n - 1];
            assert(keys[j] == keys[n - 1]);
        }
        assert(keys.take(n as int)[n - 1] == keys[n - 1]);
        if before.contains(key) {
            let j = choose|j: int| 0 <= j < before.len() && before[j] == key;
            assert(keys.take(n as int)[j] == key);
        }
        if 0 <= i < n - 1 {
            assert(keys[i] != keys[n - 1]);
        }
    }
}

/// A case of a lifted method is the world of a run against an empty storage, at a height
/// below two million, with values under the keys that the run read. A run that is
/// disqualified makes none.
pub proof fn lemma_lifted_case(p: ProberModel, opcode: u128, arg_count: nat, widths: Map<Seq<u8>, usize>, s: u64)
    ensures
        ({
            let height = (synth::draw64(s).1 % 2_000_000) as u64;
            let args = synth::draw_args(synth::draw64(s).0, arg_count).1;
            let empty = OracleModel { height, ..host::default_oracle() };
            match p.outcome(opcode, args, empty) {
                Err(_) => lift::draw_lifted(p, opcode, arg_count, widths, s) is None,
                Ok(run) => if run.outcome is Disqualified {
                    lift::draw_lifted(p, opcode, arg_count, widths, s) is None
                } else {
                    lift::draw_lifted(p, opcode, arg_count, widths, s) matches Some(c) && {
                        &&& c.args == args
                        &&& c.args.len() == arg_count
                        &&& c.oracle.height == height
                        &&& c.oracle.storage == lift::draw_widths(
                            synth::draw_args(synth::draw64(s).0, arg_count).0,
                            run.keys,
                            run.keys.len(),
                            widths,
                        ).1
                        &&& c.oracle.caller == (0u128, 0u128)
                        &&& c.oracle.myself == (2u128, 7777u128)
                        &&& c.oracle.vout == 4
                        &&& c.oracle.incoming.len() == 0
                    }
                },
            }
        }),
{
    laws::lemma_args_drawn(synth::draw64(s).0, arg_count);
}

/* ─────────────── worlds ─────────────── */

/// A uniform world stores one number everywhere, a capped one at most its cap, a split
/// one less than 64 or a number from the tip on, and a realistic one at most the height
/// or less than 1024.
pub proof fn lemma_sources(key: Seq<u8>, n: u128, salt: u64, cap: u64, height: u64)
    ensures
        worlds::source_value(ValueSource::Uniform(n), key) == n,
        worlds::source_value(ValueSource::Capped { salt, cap }, key) <= cap,
        worlds::source_value(ValueSource::Split(salt), key) < 64 || worlds::TIP <= worlds::source_value(ValueSource::Split(salt), key)
            < worlds::TIP + 2_000_000,
        worlds::source_value(ValueSource::Realistic { salt, height }, key) <= height || worlds::source_value(
            ValueSource::Realistic { salt, height },
            key,
        ) < 1024,
{
    let h = worlds::fnv_hash(key, salt);
    let c = cap as int + 1;
    vstd::arithmetic::div_mod::lemma_mod_bound(h as int, c);
}

/// A key is read at 16 bytes until it is narrowed, and at 8 then; no other key changes.
/// It is narrowed once.
pub proof fn lemma_narrowed(ws: WidthState, key: Seq<u8>, other: Seq<u8>)
    ensures
        !ws.tried.dom().contains(key) ==> worlds::narrowed(ws, key) is Some,
        worlds::narrowed(ws, key) matches Some(next) ==> {
            &&& worlds::width_of(next.widths, key) == 8
            &&& next.tried.dom().contains(key)
            &&& worlds::narrowed(next, key) is None
            &&& other != key ==> worlds::width_of(next.widths, other) == worlds::width_of(ws.widths, other)
            &&& other != key ==> next.tried.dom().contains(other) == ws.tried.dom().contains(other)
        },
        !ws.widths.dom().contains(key) ==> worlds::width_of(ws.widths, key) == 16,
{
}

/// A world stores, under every key, its number in the bytes of the key's width.
pub proof fn lemma_world_storage(source: ValueSource, widths: Map<Seq<u8>, usize>, key: Seq<u8>)
    ensures
        worlds::world_storage(source, widths)(key).len() == worlds::width_of(widths, key),
        worlds::width_of(widths, key) <= 16,
        worlds::width_of(widths, key) == 16 ==> bytes::le_num(worlds::world_storage(source, widths)(key)) == worlds::source_value(source, key),
{
    let n = worlds::source_value(source, key) as int;
    bytes::lemma_le_bytes_len(n, worlds::width_of(widths, key));
    bytes::lemma_pow256_16();
    if worlds::width_of(widths, key) == 16 {
        bytes::lemma_le_round_trip(n, 16);
    }
}

/// The context of a lifting run is the probe's, without transfers, with the opcode and
/// arguments that count up from 0x1000; the calldata begins behind the opcode.
pub proof fn lemma_lift_words(v: Method, height: u64, source: ValueSource, widths: Map<Seq<u8>, usize>, forced: Seq<bool>, i: int)
    requires
        0 <= i < v.arg_count,
        v.arg_count <= usize::MAX,
    ensures
        worlds::lift_words(v.opcode, v.arg_count) == host::context_words(
            host::default_oracle(),
            v.opcode,
            worlds::lift_words(v.opcode, v.arg_count).skip(7),
        ),
        worlds::lift_words(v.opcode, v.arg_count).len() == 7 + v.arg_count,
        worlds::lift_words(v.opcode, v.arg_count)[7 + i] == 0x1000 + i,
        worlds::lift_setup(v, height, source, widths, forced).calldata_off == 16 * 7,
        worlds::lift_setup(v, height, source, widths, forced).height == height,
        worlds::lift_setup(v, height, source, widths, forced).forced == forced,
{
    assert(host::transfer_words(host::default_oracle().incoming) =~= Seq::<u128>::empty());
    assert(worlds::lift_words(v.opcode, v.arg_count) =~= host::context_words(
        host::default_oracle(),
        v.opcode,
        worlds::lift_words(v.opcode, v.arg_count).skip(7),
    ));
}

/// A run that gives data is observed with the branches it took and its data simplified; a
/// trap narrows the key that was read last and is tried again, if any is left to narrow.
pub proof fn lemma_path(v: Method, height: u64, source: ValueSource, forced: Seq<bool>, ws: WidthState, k: nat)
    requires
        k > 0,
    ensures
        ({
            let (st, out) = worlds::lift_run(v, height, source, ws.widths, forced);
            let (next, o) = worlds::path_result(v, height, source, forced, ws, k);
            match out {
                Executed::Data(t) => next == ws && (o matches Some(o) && o.trace == st.path && o.result == sym::simple_bytes(t)),
                Executed::Trap(_) => if st.asked.len() > 0 && !ws.tried.dom().contains(st.asked.last()) {
                    (next, o) == worlds::path_result(
                        v,
                        height,
                        source,
                        forced,
                        worlds::narrowed(ws, st.asked.last())->Some_0,
                        (k - 1) as nat,
                    )
                } else if st.asked.len() == 0 {
                    next == ws && o is None
                } else {
                    true
                },
                _ => next == ws && o is None,
            }
        }),
{
    let st = worlds::lift_run(v, height, source, ws.widths, forced).0;
    if st.asked.len() > 0 {
        lemma_narrowed(ws, st.asked.last(), st.asked.last());
    }
}

/* ─────────────── merging ─────────────── */

/// Observations with one result merge to it, whatever their traces.
pub proof fn lemma_merge_same(obs: Seq<Observation>, e: BytesTerm)
    requires
        obs.len() > 0,
        forall|i: int| 0 <= i < obs.len() ==> (#[trigger] obs[i]).result == e,
    ensures
        merge::merged(obs, 0) == Some(e),
{
}

proof fn lemma_some_split(obs: Seq<Observation>, depth: nat, from: nat, k: int)
    requires
        depth <= 16,
        from <= k < merge::predicates(obs).len(),
        merge::splits(obs, merge::predicates(obs)[k]),
        merge::merged(merge::side(obs, merge::predicates(obs)[k], true), depth + 1) is Some,
        merge::merged(merge::side(obs, merge::predicates(obs)[k], false), depth + 1) is Some,
    ensures
        merge::first_split(obs, depth, from) is Some,
    decreases k - from,
{
    if from < k {
        lemma_some_split(obs, depth, from + 1, k);
    }
}

proof fn lemma_predicate_found(seen: Seq<BoolTerm>, trace: Seq<(BoolTerm, bool)>, p: BoolTerm)
    ensures
        seen.contains(p) ==> merge::with_trace(seen, trace).contains(p),
        merge::direction(trace, p) is Some ==> merge::with_trace(seen, trace).contains(p),
    decreases trace.len(),
{
    if trace.len() > 0 {
        let before = trace.drop_last();
        lemma_predicate_found(seen, before, p);
        lemma_direction_last(trace, p);
        let found = merge::with_trace(seen, before);
        let all = merge::with_trace(seen, trace);
        if found.contains(p) {
            let j = choose|j: int| 0 <= j < found.len() && found[j] == p;
            assert(all[j] == p);
        }
        if trace.last().0 == p && !found.contains(p) {
            assert(all[found.len() as int] == p);
        }
    }
}

/// A trace that meets a predicate meets it last or before that.
proof fn lemma_direction_last(trace: Seq<(BoolTerm, bool)>, p: BoolTerm)
    requires
        trace.len() > 0,
    ensures
        merge::direction(trace, p) is Some ==> trace.last().0 == p || merge::direction(trace.drop_last(), p) is Some,
    decreases trace.len(),
{
    reveal_with_fuel(merge::direction, 2);
    if trace[0].0 != p && trace.len() > 1 {
        lemma_direction_last(trace.drop_first(), p);
        assert(trace.drop_first().drop_last() =~= trace.drop_last().drop_first());
        assert(trace.drop_first().last() == trace.last());
    }
}

/// Observations that all meet a predicate, and not all the same way, merge if those that
/// meet it either way do.
pub proof fn lemma_merge_split(obs: Seq<Observation>, depth: nat, p: BoolTerm)
    requires
        depth <= 15,
        merge::splits(obs, p),
        merge::merged(merge::side(obs, p, true), depth + 1) is Some,
        merge::merged(merge::side(obs, p, false), depth + 1) is Some,
    ensures
        merge::merged(obs, depth) is Some,
{
    if obs.len() == 0 {
        assert(merge::side(obs, p, true).len() == 0);
    } else {
        assert(merge::direction(obs[obs.len() - 1].trace, p) is Some);
        lemma_predicate_found(merge::predicates(obs.drop_last()), obs.last().trace, p);
        let all = merge::predicates(obs);
        let k = choose|k: int| 0 <= k < all.len() && all[k] == p;
        lemma_some_split(obs, depth, 0, k);
    }
}

/* ─────────────── exploring ─────────────── */

/// Two sides under a predicate give the side that the predicate chooses.
pub proof fn lemma_joined(p: BoolTerm, a: BytesTerm, b: BytesTerm, w: World)
    ensures
        eval::bool_value(p, w, None) == Ok::<bool, PlanError>(true) ==> eval::bytes_value(merge::joined(p, a, b), w, None)
            == eval::bytes_value(a, w, None),
        eval::bool_value(p, w, None) == Ok::<bool, PlanError>(false) ==> eval::bytes_value(merge::joined(p, a, b), w, None)
            == eval::bytes_value(b, w, None),
{
    reveal_with_fuel(eval::bytes_value, 2);
}

/// A subtree is a leaf where the path under its directions branches no further, and gives
/// elsewhere, in a world, what the subtree of the side gives that the world takes at the
/// first branch beyond them. There is none without both sides.
pub proof fn lemma_subtree(v: Method, forced: Seq<bool>, ws: WidthState, budget: nat, o: Observation, w: World)
    requires
        budget > 0,
        explore::pool_path(v, forced, ws, 0).1 == Some(o),
    ensures
        o.trace.len() <= forced.len() ==> explore::subtree(v, forced, ws, budget).tree == Some(o.result),
        o.trace.len() > forced.len() ==> {
            let left = (budget - 1) as nat;
            let yes = explore::subtree(v, forced.push(true), explore::pool_path(v, forced, ws, 0).0, left);
            let no = explore::subtree(v, forced.push(false), yes.widths, yes.budget);
            let all = explore::subtree(v, forced, ws, budget);
            let p = o.trace[forced.len() as int].0;
            &&& all.tree is Some <==> yes.tree is Some && no.tree is Some
            &&& all.tree is Some && eval::bool_value(p, w, None) == Ok::<bool, PlanError>(true) ==> eval::bytes_value(
                all.tree->Some_0,
                w,
                None,
            ) == eval::bytes_value(yes.tree->Some_0, w, None)
            &&& all.tree is Some && eval::bool_value(p, w, None) == Ok::<bool, PlanError>(false) ==> eval::bytes_value(
                all.tree->Some_0,
                w,
                None,
            ) == eval::bytes_value(no.tree->Some_0, w, None)
        },
{
    if o.trace.len() > forced.len() {
        let left = (budget - 1) as nat;
        let widths = explore::pool_path(v, forced, ws, 0).0;
        lemma_budget_left(v, forced.push(true), widths, left);
        let yes = explore::subtree(v, forced.push(true), widths, left);
        let no = explore::subtree(v, forced.push(false), yes.widths, yes.budget);
        if yes.tree is Some && no.tree is Some {
            lemma_joined(o.trace[forced.len() as int].0, yes.tree->Some_0, no.tree->Some_0, w);
        }
    }
}

proof fn lemma_budget_left(v: Method, forced: Seq<bool>, ws: WidthState, budget: nat)
    ensures
        explore::subtree(v, forced, ws, budget).budget <= budget,
    decreases budget,
{
    if budget > 0 {
        let left = (budget - 1) as nat;
        let (widths, o) = explore::pool_path(v, forced, ws, 0);
        if let Some(o) = o {
            if o.trace.len() > forced.len() {
                lemma_budget_left(v, forced.push(true), widths, left);
                let a = explore::subtree(v, forced.push(true), widths, left);
                lemma_budget_left(v, forced.push(false), a.widths, if a.budget <= left { a.budget } else { left });
            }
        }
    }
}

/// Without a live run or a budget there is no subtree.
pub proof fn lemma_no_subtree(v: Method, forced: Seq<bool>, ws: WidthState, budget: nat)
    ensures
        budget == 0 || explore::pool_path(v, forced, ws, 0).1 is None ==> explore::subtree(v, forced, ws, budget).tree is None,
{
}

/// A decision tree has one node for a leaf, and one more than its two sides for a branch.
pub proof fn lemma_tree_nodes(c: BoolTerm, a: BytesTerm, b: BytesTerm)
    ensures
        explore::tree_nodes(a) >= 1,
        explore::tree_nodes(BytesTerm::If { cond: Box::new(c), if_true: Box::new(a), if_false: Box::new(b) }) == 1 + explore::tree_nodes(a)
            + explore::tree_nodes(b),
        !(a is If) ==> explore::tree_nodes(a) == 1,
{
    reveal_with_fuel(explore::tree_nodes, 2);
}

/* ─────────────── candidates ─────────────── */

/// How many observations have a result.
pub open spec fn occurrences(obs: Seq<Observation>, e: BytesTerm) -> nat {
    obs.filter(|o: Observation| o.result == e).len()
}

proof fn lemma_tally_place(t: Seq<Tally>, e: BytesTerm, from: nat)
    ensures
        match view::tally_place(t, e, from) {
            Some(i) => from <= i < t.len() && t[i].result == e,
            None => forall|i: int| from <= i < t.len() ==> (#[trigger] t[i]).result != e,
        },
    decreases t.len() - from,
{
    if from < t.len() && t[from as int].result != e {
        lemma_tally_place(t, e, from + 1);
        assert forall|i: int| from <= i < t.len() && view::tally_place(t, e, from) is None implies (#[trigger] t[i]).result != e by {
            if i > from {
                assert(t[i].result != e);
            }
        }
    }
}

/// Every result that was observed is tallied once, with the number of its observations.
pub proof fn lemma_tallied(obs: Seq<Observation>, i: int, j: int)
    ensures
        0 <= i < view::tallied(obs).len() ==> view::tallied(obs)[i].count == occurrences(obs, view::tallied(obs)[i].result),
        0 <= i < j < view::tallied(obs).len() ==> view::tallied(obs)[i].result != view::tallied(obs)[j].result,
        0 <= i < obs.len() ==> exists|k: int| 0 <= k < view::tallied(obs).len() && (#[trigger] view::tallied(obs)[k]).result == obs[i].result,
    decreases obs.len(), 0nat,
{
    if obs.len() > 0 {
        let before = obs.drop_last();
        let t = view::tallied(before);
        let all = view::tallied(obs);
        let last = obs.last().result;
        lemma_tallied(before, i, j);
        lemma_tally_place(t, last, 0);
        reveal(Seq::filter);
        if 0 <= i < all.len() {
            let e = all[i].result;
            let f = |o: Observation| o.result == e;
            assert(obs.filter(f).len() == before.filter(f).len() + if last == e { 1int } else { 0 });
            if i == t.len() {
                lemma_none_occur(before, e);
            } else {
                assert(t[i].count == occurrences(before, t[i].result));
                if last == e {
                    let at = view::tally_place(t, last, 0)->Some_0;
                    if at != i {
                        lemma_tallied(before, if at < i { at } else { i }, if at < i { i } else { at });
                    }
                }
            }
        }
        if 0 <= i < obs.len() {
            if i < before.len() {
                let k = choose|k: int| 0 <= k < t.len() && (#[trigger] t[k]).result == before[i].result;
                assert(all[k].result == obs[i].result);
            } else {
                match view::tally_place(t, last, 0) {
                    Some(k) => {
                        assert(all[k].result == last);
                    }
                    None => {
                        assert(all[t.len() as int].result == last);
                    }
                }
            }
        }
    }
}

/// A result that is not tallied was not observed.
proof fn lemma_none_occur(obs: Seq<Observation>, e: BytesTerm)
    requires
        forall|k: int| 0 <= k < view::tallied(obs).len() ==> (#[trigger] view::tallied(obs)[k]).result != e,
    ensures
        occurrences(obs, e) == 0,
    decreases obs.len(), 1nat,
{
    let f = |o: Observation| o.result == e;
    let some = obs.filter(f);
    if some.len() > 0 {
        obs.lemma_filter_contains_rev(f, some[0]);
        assert(some.contains(some[0]));
        obs.lemma_filter_pred(f, 0);
        assert(f(some[0]));
        let i = choose|i: int| 0 <= i < obs.len() && obs[i] == some[0];
        lemma_tallied(obs, i, i);
    }
}

proof fn lemma_rank_place(t: Seq<Tally>, count: nat, from: nat)
    requires
        from <= t.len(),
        forall|i: int| 0 <= i < from ==> (#[trigger] t[i]).count >= count,
    ensures
        from <= view::rank_place(t, count, from) <= t.len(),
        forall|i: int| 0 <= i < view::rank_place(t, count, from) ==> (#[trigger] t[i]).count >= count,
        view::rank_place(t, count, from) < t.len() ==> t[view::rank_place(t, count, from)].count < count,
    decreases t.len() - from,
{
    if from < t.len() && t[from as int].count >= count {
        lemma_rank_place(t, count, from + 1);
    }
}

/// The tallies with the larger counts come first, and none is lost.
pub proof fn lemma_ranked(t: Seq<Tally>, i: int, j: int)
    ensures
        view::ranked(t).len() == t.len(),
        0 <= i <= j < t.len() ==> view::ranked(t)[i].count >= view::ranked(t)[j].count,
        0 <= i < t.len() ==> view::ranked(t).contains(t[i]),
        0 <= i < t.len() ==> t.contains(view::ranked(t)[i]),
    decreases t.len(),
{
    if t.len() > 0 {
        let less = t.drop_last();
        let before = view::ranked(less);
        lemma_ranked(less, i, j);
        assert forall|k: int, l: int| 0 <= k <= l < before.len() implies (#[trigger] before[k]).count >= (#[trigger] before[l]).count by {
            lemma_ranked(less, k, l);
        }
        lemma_rank_place(before, t.last().count, 0);
        let at = view::rank_place(before, t.last().count, 0);
        let all = view::ranked(t);
        assert(all == before.insert(at, t.last()));
        assert(all[at] == t.last());
        if 0 <= i < t.len() {
            if i < less.len() {
                assert(less[i] == t[i]);
                let k = choose|k: int| 0 <= k < before.len() && before[k] == t[i];
                assert(all[if k < at { k } else { k + 1 }] == t[i]);
            }
            if i != at {
                let k = if i < at { i } else { i - 1 };
                assert(all[i] == before[k]);
                lemma_ranked(less, k, k);
                let l = choose|l: int| 0 <= l < less.len() && less[l] == before[k];
                assert(t[l] == before[k]);
            } else {
                assert(t[t.len() - 1] == all[i]);
            }
        }
        if 0 <= i <= j < t.len() {
            if i < at && j > at {
                assert(before[i].count >= t.last().count);
                assert(all[j] == before[j - 1]);
            } else if i > at {
                assert(all[i] == before[i - 1] && all[j] == before[j - 1]);
            } else if i == at && j > at {
                assert(all[j] == before[j - 1]);
                assert(before[at].count >= before[j - 1].count);
            }
        }
    }
}

/// The candidates of a view, where any run of it got through: the six results that were
/// observed most often, each simplified; the merged tree; and, of a view with more than one
/// result, the explored tree.
pub proof fn lemma_candidates(v: Method, i: int)
    ensures
        ({
            let (ws, obs) = view::observed(v, 54);
            let ranks = view::ranked(view::tallied(obs));
            let cs = view::lift_candidates(v);
            &&& obs.len() == 0 <==> cs.len() == 0
            &&& 0 <= i < 6 && i < ranks.len() && obs.len() > 0 ==> i < cs.len() && cs[i].term == sym::simple_bytes(ranks[i].result) && cs[i].widths
                == ws.widths
            &&& obs.len() > 0 ==> (merge::merged(obs, 0) matches Some(e) ==> exists|k: int|
                0 <= k < cs.len() && (#[trigger] cs[k]).term == sym::simple_bytes(e))
            &&& obs.len() > 0 && ranks.len() > 1 ==> (explore::explored_view(v) matches Some(x) ==> exists|k: int|
                0 <= k < cs.len() && (#[trigger] cs[k]).term == x.0)
            &&& cs.len() <= 8
        }),
{
    let (ws, obs) = view::observed(v, 54);
    let ranks = view::ranked(view::tallied(obs));
    let cs = view::lift_candidates(v);
    if obs.len() > 0 {
        lemma_tallied(obs, 0, 0);
        lemma_ranked(view::tallied(obs), 0, 0);
        let single = view::single_candidates(ranks, ws.widths);
        let joined = match merge::merged(obs, 0) {
            Some(e) => view::with_candidate(single, view::Candidate { term: sym::simple_bytes(e), widths: ws.widths }),
            None => single,
        };
        if let Some(e) = merge::merged(obs, 0) {
            lemma_with_candidate(single, view::Candidate { term: sym::simple_bytes(e), widths: ws.widths });
        }
        if let Some((e, w)) = explore::explored_view(v) {
            lemma_with_candidate(joined, view::Candidate { term: e, widths: w });
        }
        if let Some(e) = merge::merged(obs, 0) {
            let k = choose|k: int| 0 <= k < joined.len() && (#[trigger] joined[k]).term == sym::simple_bytes(e);
            assert(cs[k] == joined[k]);
        }
    }
}

proof fn lemma_with_candidate(cs: Seq<view::Candidate>, c: view::Candidate)
    ensures
        cs.is_prefix_of(view::with_candidate(cs, c)),
        view::with_candidate(cs, c).len() <= cs.len() + 1,
        exists|k: int| 0 <= k < view::with_candidate(cs, c).len() && (#[trigger] view::with_candidate(cs, c)[k]).term == c.term,
{
    if exists|i: int| 0 <= i < cs.len() && (#[trigger] cs[i]).term == c.term {
        let i = choose|i: int| 0 <= i < cs.len() && (#[trigger] cs[i]).term == c.term;
        assert(view::with_candidate(cs, c)[i].term == c.term);
    } else {
        assert(view::with_candidate(cs, c)[cs.len() as int].term == c.term);
    }
}

/// A decision tree of at most 2000 nodes is shipped, simplified; a larger one is not.
pub proof fn lemma_shipped(v: Method)
    ensures
        explore::whole_tree(v).tree matches Some(t) ==> if explore::tree_nodes(t) <= 2000 {
            explore::explored_view(v) matches Some(x) && x.0 == sym::simple_bytes(t)
        } else {
            explore::explored_view(v) is None
        },
        explore::whole_tree(v).tree is None ==> explore::explored_view(v) is None,
{
}

} // verus!
