//! Lifting a view: the candidate plans that its runs show.
use vstd::prelude::*;
use crate::analysis::lift::explore::explore_view;
use crate::analysis::lift::merge::{merge_observations, Observation};
use crate::analysis::lift::module::{WasmModule, PAGE};
use crate::analysis::lift::sym::simplify_bytes;
use crate::analysis::lift::worlds::{run_path_one, Discovered, Method, ValueSource, WidthState, Widths, TIP};
use crate::analysis::lift::{explore, merge, sym, worlds};
use crate::bytes::copy_plain;
use crate::plan::{BoolExpr, BytesExpr, BytesTerm};

verus! {

/* ─────────────── observations ─────────────── */

/// One of four or six numbers.
pub open spec fn pick(i: int, a: u64, b: u64, c: u64, d: u64, e: u64, f: u64) -> u64 {
    if i == 0 { a } else if i == 1 { b } else if i == 2 { c } else if i == 3 { d } else if i == 4 { e } else { f }
}

/// The worlds that a view is observed in, each a height and a value source.
///
/// First uniform archetypes, every key the same value: small values drive the "far
/// below tip" / clamped branches; near-tip values drive the live path. Then per-key
/// varied worlds: distinct keys get distinct pseudo-random values (and a few heights),
/// so key-vs-key comparisons flip both ways across worlds and the merge can see each
/// side of a branch. Then small-height worlds with small values: every stored value in
/// [0,height] against a low tip, which keeps height-derived quantities *in range* so
/// that the "live" arithmetic paths are taken, both above and below the saturation
/// threshold. Last, small stored values against a full-range tip: a stored counter
/// well below the height-derived one is the "stale" regime; different caps straddle
/// the threshold both ways.
pub open spec fn lift_world(i: int) -> (u64, ValueSource) {
    if i < 6 {
        (TIP, ValueSource::Uniform(pick(i, 7, 1, 0, 879_991, 775_001, 440_000) as u128))
    } else if i < 22 {
        let salt = i - 6;
        let height = pick(salt % 4, TIP, 200_000, 1_000_000, 50_000, 0, 0);
        (height, ValueSource::Realistic { salt: salt as u64, height })
    } else if i < 38 {
        let salt = i - 22;
        let height = pick(salt % 6, 64, 200, 1000, 8000, 100_000, 300_000);
        (height, ValueSource::Capped { salt: salt as u64, cap: height })
    } else {
        let salt = i - 38;
        (
            pick(salt % 4, TIP, 500_000, 1_000_000, 210_001, 0, 0),
            ValueSource::Capped { salt: (salt + 777) as u64, cap: pick(salt % 6, 3, 8, 20, 64, 200, 5000) },
        )
    }
}

fn pick_of(i: u64, a: u64, b: u64, c: u64, d: u64, e: u64, f: u64) -> (r: u64)
    ensures
        r == pick(i as int, a, b, c, d, e, f),
{
    if i == 0 { a } else if i == 1 { b } else if i == 2 { c } else if i == 3 { d } else if i == 4 { e } else { f }
}

fn world_at(i: u64) -> (r: (u64, ValueSource))
    requires
        i < 54,
    ensures
        r == lift_world(i as int),
{
    if i < 6 {
        (TIP, ValueSource::Uniform(pick_of(i, 7, 1, 0, 879_991, 775_001, 440_000) as u128))
    } else if i < 22 {
        let salt: u64 = i - 6;
        let height: u64 = pick_of(salt % 4, TIP, 200_000, 1_000_000, 50_000, 0, 0);
        (height, ValueSource::Realistic { salt, height })
    } else if i < 38 {
        let salt: u64 = i - 22;
        let height: u64 = pick_of(salt % 6, 64, 200, 1000, 8000, 100_000, 300_000);
        (height, ValueSource::Capped { salt, cap: height })
    } else {
        let salt: u64 = i - 38;
        (
            pick_of(salt % 4, TIP, 500_000, 1_000_000, 210_001, 0, 0),
            ValueSource::Capped { salt: salt + 777, cap: pick_of(salt % 6, 3, 8, 20, 64, 200, 5000) },
        )
    }
}

/// The widths found and the observations made in the first `k` worlds. Widths persist
/// across worlds so a narrowing found on one run carries into the next.
pub open spec fn observed(v: Method, k: nat) -> (WidthState, Seq<Observation>)
    decreases k,
{
    if k == 0 {
        (WidthState { widths: Map::empty(), tried: Map::empty() }, Seq::empty())
    } else {
        let (ws, obs) = observed(v, (k - 1) as nat);
        let (height, source) = lift_world(k - 1);
        let (next, o) = worlds::path_result(v, height, source, Seq::empty(), ws, 16);
        (next, match o {
            Some(o) => obs.push(o),
            None => obs,
        })
    }
}

/// Run the view under many oracle worlds (see [`lift_view`]) and return every
/// `(predicate trace, lifted expr)` observation plus the discovered per-key
/// widths.
fn collect_observations(m: &WasmModule, opcode: u128, arg_count: usize) -> (r: (Vec<(Vec<(BoolExpr, bool)>, BytesExpr)>, Widths))
    requires
        m.mem_min_pages * PAGE <= usize::MAX,
    ensures
        ({
            let (ws, obs) = observed((Method { module: m.model(), opcode, arg_count: arg_count as nat }), 54);
            merge::observations_of(r.0@) == obs && r.1.map() == ws.widths && r.0@.len() <= 54
        }),
{
    let ghost v = Method { module: m.model(), opcode, arg_count: arg_count as nat };
    let mut found = Discovered::new();
    let mut obs: Vec<(Vec<(BoolExpr, bool)>, BytesExpr)> = Vec::new();
    assert(merge::observations_of(obs@) =~= Seq::empty());
    let none: Vec<bool> = Vec::new();
    assert(none@ =~= Seq::empty());
    for i in 0..54u64
        invariant
            m.mem_min_pages * PAGE <= usize::MAX,
            none@ == Seq::<bool>::empty(),
            v == (Method { module: m.model(), opcode, arg_count: arg_count as nat }),
            observed(v, i as nat) == (found.state(), merge::observations_of(obs@)),
            obs@.len() <= i,
    {
        let ghost before = merge::observations_of(obs@);
        let (height, source) = world_at(i);
        if let Some((path, expr)) = run_path_one(m, opcode, arg_count, height, source, none.as_slice(), &mut found) {
            obs.push((path, expr));
            assert(merge::observations_of(obs@) =~= before.push(merge::observations_of(obs@).last()));
        }
    }
    (obs, found.widths)
}

/* ─────────────── frequency ─────────────── */

/// A result and how often it was observed.
pub ghost struct Tally {
    pub result: BytesTerm,
    pub count: nat,
}

/// The place of a result, from a place on.
pub open spec fn tally_place(t: Seq<Tally>, e: BytesTerm, from: nat) -> Option<int>
    decreases t.len() - from,
{
    if from >= t.len() {
        None
    } else if t[from as int].result == e {
        Some(from as int)
    } else {
        tally_place(t, e, from + 1)
    }
}

/// The results of the observations, each where it comes first, with its count.
pub open spec fn tallied(obs: Seq<Observation>) -> Seq<Tally>
    decreases obs.len(),
{
    if obs.len() == 0 {
        Seq::empty()
    } else {
        let before = tallied(obs.drop_last());
        match tally_place(before, obs.last().result, 0) {
            Some(i) => before.update(i, Tally { count: before[i].count + 1, ..before[i] }),
            None => before.push(Tally { result: obs.last().result, count: 1 }),
        }
    }
}

/// Where a count belongs among falling counts: behind those that are as large.
pub open spec fn rank_place(t: Seq<Tally>, count: nat, from: nat) -> int
    decreases t.len() - from,
{
    if from < t.len() && t[from as int].count >= count {
        rank_place(t, count, from + 1)
    } else {
        from as int
    }
}

/// The tallies with the largest counts first; of two that are equal, the one seen first.
pub open spec fn ranked(t: Seq<Tally>) -> Seq<Tally>
    decreases t.len(),
{
    if t.len() == 0 {
        Seq::empty()
    } else {
        let before = ranked(t.drop_last());
        before.insert(rank_place(before, t.last().count, 0), t.last())
    }
}

pub open spec fn tallies(freq: Seq<(BytesExpr, usize)>) -> Seq<Tally> {
    Seq::new(freq.len(), |i: int| Tally { result: freq[i].0.term(), count: freq[i].1 as nat })
}

fn find_tally(freq: &Vec<(BytesExpr, usize)>, e: &BytesExpr) -> (r: Option<usize>)
    ensures
        match r {
            Some(i) => tally_place(tallies(freq@), e.term(), 0) == Some(i as int) && i < freq@.len(),
            None => tally_place(tallies(freq@), e.term(), 0) is None,
        },
{
    let ghost t = tallies(freq@);
    let n: usize = freq.len();
    for i in 0..n
        invariant
            n == freq@.len(),
            t == tallies(freq@),
            tally_place(t, e.term(), 0) == tally_place(t, e.term(), i as nat),
    {
        assert(t[i as int].result == freq@[i as int].0.term());
        if freq[i].0.same(e) {
            return Some(i);
        }
    }
    None
}

fn count_results(obs: &Vec<(Vec<(BoolExpr, bool)>, BytesExpr)>) -> (r: Vec<(BytesExpr, usize)>)
    ensures
        tallies(r@) == tallied(merge::observations_of(obs@)),
{
    let ghost all = merge::observations_of(obs@);
    let mut freq: Vec<(BytesExpr, usize)> = Vec::new();
    assert(tallies(freq@) =~= tallied(all.take(0)));
    let n: usize = obs.len();
    for i in 0..n
        invariant
            n == obs@.len(),
            all == merge::observations_of(obs@),
            tallies(freq@) == tallied(all.take(i as int)),
            forall|j: int| 0 <= j < freq@.len() ==> (#[trigger] freq@[j]).1 <= i,
    {
        let ghost before = tallies(freq@);
        assert(all.take(i + 1).drop_last() =~= all.take(i as int));
        assert(all.take(i + 1).last() == all[i as int]);
        assert(all[i as int].result == obs@[i as int].1.term());
        match find_tally(&freq, &obs[i].1) {
            Some(k) => {
                let count: usize = freq[k].1;
                let e = freq[k].0.copy();
                freq.set(k, (e, count + 1));
                assert(tallies(freq@) =~= before.update(k as int, Tally { count: before[k as int].count + 1, ..before[k as int] }));
            }
            None => {
                freq.push((obs[i].1.copy(), 1));
                assert(tallies(freq@) =~= before.push(Tally { result: obs@[i as int].1.term(), count: 1 }));
            }
        }
    }
    assert(all.take(n as int) =~= all);
    freq
}

proof fn lemma_rank_place(t: Seq<Tally>, count: nat, from: nat)
    requires
        from <= t.len(),
    ensures
        from <= rank_place(t, count, from) <= t.len(),
    decreases t.len() - from,
{
    if from < t.len() && t[from as int].count >= count {
        lemma_rank_place(t, count, from + 1);
    }
}

fn rank(freq: &Vec<(BytesExpr, usize)>) -> (r: Vec<(BytesExpr, usize)>)
    ensures
        tallies(r@) == ranked(tallies(freq@)),
{
    let ghost all = tallies(freq@);
    let mut out: Vec<(BytesExpr, usize)> = Vec::new();
    assert(tallies(out@) =~= ranked(all.take(0)));
    let n: usize = freq.len();
    for i in 0..n
        invariant
            n == freq@.len(),
            all == tallies(freq@),
            tallies(out@) == ranked(all.take(i as int)),
    {
        let ghost before = tallies(out@);
        assert(all.take(i + 1).drop_last() =~= all.take(i as int));
        let count: usize = freq[i].1;
        assert(all[i as int] == (Tally { result: freq@[i as int].0.term(), count: count as nat }));
        let mut at: usize = 0;
        let m: usize = out.len();
        while at < m && out[at].1 >= count
            invariant
                m == out@.len(),
                at <= m,
                before == tallies(out@),
                rank_place(before, count as nat, 0) == rank_place(before, count as nat, at as nat),
            decreases m - at,
        {
            at = at + 1;
        }
        assert(rank_place(before, count as nat, 0) == at);
        out.insert(at, (freq[i].0.copy(), count));
        assert(tallies(out@) =~= before.insert(at as int, all[i as int]));
    }
    assert(all.take(n as int) =~= all);
    out
}

/* ─────────────── candidates ─────────────── */

/// A candidate plan: an expression, and the widths under which it was lifted.
pub ghost struct Candidate {
    pub term: BytesTerm,
    pub widths: Map<Seq<u8>, usize>,
}

pub open spec fn candidate_models(c: Seq<(BytesExpr, Widths)>) -> Seq<Candidate> {
    Seq::new(c.len(), |i: int| Candidate { term: c[i].0.term(), widths: c[i].1.map() })
}

/// The candidates with one more, unless its expression is among them.
pub open spec fn with_candidate(cs: Seq<Candidate>, c: Candidate) -> Seq<Candidate> {
    if exists|i: int| 0 <= i < cs.len() && (#[trigger] cs[i]).term == c.term {
        cs
    } else {
        cs.push(c)
    }
}

/// The lifts of single worlds: at most six, the most frequent first.
pub open spec fn single_candidates(ranks: Seq<Tally>, widths: Map<Seq<u8>, usize>) -> Seq<Candidate> {
    Seq::new(
        if ranks.len() < 6 { ranks.len() } else { 6 },
        |i: int| Candidate { term: sym::simple_bytes(ranks[i].result), widths },
    )
}

/// The candidate plans of a view, in the order in which they should be verified: the
/// lifts of single worlds, what they merge to, and, if there is more than one, the
/// explored decision tree.
pub open spec fn lift_candidates(v: Method) -> Seq<Candidate> {
    let (ws, obs) = observed(v, 54);
    if obs.len() == 0 {
        Seq::empty()
    } else {
        let ranks = ranked(tallied(obs));
        let single = single_candidates(ranks, ws.widths);
        let joined = match merge::merged(obs, 0) {
            Some(e) => with_candidate(single, Candidate { term: sym::simple_bytes(e), widths: ws.widths }),
            None => single,
        };
        if ranks.len() > 1 {
            match explore::explored_view(v) {
                Some((e, w)) => with_candidate(joined, Candidate { term: e, widths: w }),
                None => joined,
            }
        } else {
            joined
        }
    }
}

fn add_candidate(cs: &mut Vec<(BytesExpr, Widths)>, e: BytesExpr, w: Widths)
    ensures
        candidate_models(final(cs)@) == with_candidate(candidate_models(old(cs)@), (Candidate { term: e.term(), widths: w.map() })),
{
    let ghost before = candidate_models(cs@);
    let n: usize = cs.len();
    for i in 0..n
        invariant
            n == cs@.len(),
            cs@ == old(cs)@,
            before == candidate_models(cs@),
            forall|j: int| 0 <= j < i ==> (#[trigger] before[j]).term != e.term(),
    {
        assert(before[i as int].term == cs@[i as int].0.term());
        if cs[i].0.same(&e) {
            return;
        }
    }
    cs.push((e, w));
    assert(candidate_models(cs@) =~= before.push(Candidate { term: e.term(), widths: w.map() }));
}

/// Attempt to lift a plan for `opcode`. Returns raw (unverified) BytesExprs
/// alongside the per-key storage widths they were lifted under (which the verifier
/// must reuse); the caller must verify each against the wasm before shipping.
///
/// The lifter runs the view concretely under many oracle *worlds* and merges the
/// results:
///
/// * **Per-key widths** are discovered greedily: every key starts at 16 bytes,
///   and a trap right after a key is read narrows it to 8 (a `u64` decoded from
///   16 bytes panics in the contract's deserializer). This alone is what lets
///   multi-scalar views (genesis(u64), epoch(u128), ...) execute at all.
/// * **Branch merging**: different worlds take different control-flow branches
///   (e.g. a saturating/clamped path vs. the live path). Each run records the
///   symbolic predicates it branched on; [`merge_observations`] stitches runs
///   that diverge on one predicate into `if(pred, then, else)`. This recovers
///   views whose value depends on a `br_if`, not just a branchless `select`.
pub fn lift_view(m: &WasmModule, opcode: u128, arg_count: usize) -> (r: Vec<(BytesExpr, Widths)>)
    requires
        m.mem_min_pages * PAGE <= usize::MAX,
    ensures
        candidate_models(r@) == lift_candidates((Method { module: m.model(), opcode, arg_count: arg_count as nat })),
{
    let (obs, widths) = collect_observations(m, opcode, arg_count);
    let mut candidates: Vec<(BytesExpr, Widths)> = Vec::new();
    assert(candidate_models(candidates@) =~= Seq::empty());
    assert(merge::observations_of(obs@).len() == obs@.len());
    if obs.len() == 0 {
        return candidates;
    }
    let freq = count_results(&obs);
    let ranks = rank(&freq);
    let ghost models = ranked(tallies(freq@));
    assert(models.len() == ranks@.len());
    let n: usize = if ranks.len() < 6 { ranks.len() } else { 6 };
    for i in 0..n
        invariant
            n <= ranks@.len(),
            models == tallies(ranks@),
            candidates@.len() == i,
            forall|j: int| 0 <= j < i ==> (#[trigger] candidates@[j]).0.term() == sym::simple_bytes(models[j].result) && candidates@[j].1.map()
                == widths.map(),
    {
        assert(models[i as int].result == ranks@[i as int].0.term());
        let e = simplify_bytes(ranks[i].0.copy());
        let w = copy_plain(&widths);
        candidates.push((e, w));
    }
    assert(candidate_models(candidates@) =~= single_candidates(models, widths.map()));
    if let Some(e) = merge_observations(obs.as_slice(), 0) {
        let w = copy_plain(&widths);
        add_candidate(&mut candidates, simplify_bytes(e), w);
    }
    // A branchy view whose paths the single-run observations couldn't stitch
    // needs the full decision tree: recover it by concolic path forking. Gated
    // on branchiness so straight-line views (one distinct result) skip the cost.
    if ranks.len() > 1 {
        if let Some((e, w)) = explore_view(m, opcode, arg_count) {
            add_candidate(&mut candidates, e, w);
        }
    }
    candidates
}

} // verus!
