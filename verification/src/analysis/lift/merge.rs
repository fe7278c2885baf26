//! Merging what several runs showed into one conditional expression.
use vstd::prelude::*;
use crate::plan::{eval, term};
use crate::plan::{BoolExpr, BoolTerm, BytesExpr, BytesTerm, World};

verus! {

broadcast use term::group_list_terms;

/// A run: the predicates it branched on, with the directions taken, and its result.
pub ghost struct Observation {
    pub trace: Seq<(BoolTerm, bool)>,
    pub result: BytesTerm,
}

pub open spec fn trace_terms(trace: Seq<(BoolExpr, bool)>) -> Seq<(BoolTerm, bool)> {
    Seq::new(trace.len(), |i: int| (trace[i].0.term(), trace[i].1))
}

pub open spec fn observations_of(obs: Seq<(Vec<(BoolExpr, bool)>, BytesExpr)>) -> Seq<Observation> {
    Seq::new(obs.len(), |i: int| Observation { trace: trace_terms(obs[i].0@), result: obs[i].1.term() })
}

/// The direction that a trace takes at a predicate, where it first meets it.
pub open spec fn direction(trace: Seq<(BoolTerm, bool)>, p: BoolTerm) -> Option<bool>
    decreases trace.len(),
{
    if trace.len() == 0 {
        None
    } else if trace[0].0 == p {
        Some(trace[0].1)
    } else {
        direction(trace.drop_first(), p)
    }
}

/// The trace without a predicate.
pub open spec fn stripped(trace: Seq<(BoolTerm, bool)>, p: BoolTerm) -> Seq<(BoolTerm, bool)>
    decreases trace.len(),
{
    if trace.len() == 0 {
        Seq::empty()
    } else if trace.last().0 == p {
        stripped(trace.drop_last(), p)
    } else {
        stripped(trace.drop_last(), p).push(trace.last())
    }
}

/// The observations that take a predicate in a direction, which is then forgotten.
pub open spec fn side(obs: Seq<Observation>, p: BoolTerm, dir: bool) -> Seq<Observation>
    decreases obs.len(),
{
    if obs.len() == 0 {
        Seq::empty()
    } else if direction(obs.last().trace, p) == Some(dir) {
        side(obs.drop_last(), p, dir).push(Observation { trace: stripped(obs.last().trace, p), result: obs.last().result })
    } else {
        side(obs.drop_last(), p, dir)
    }
}

/// The predicates of a trace that are new, behind those seen before.
pub open spec fn with_trace(seen: Seq<BoolTerm>, trace: Seq<(BoolTerm, bool)>) -> Seq<BoolTerm>
    decreases trace.len(),
{
    if trace.len() == 0 {
        seen
    } else {
        let before = with_trace(seen, trace.drop_last());
        if before.contains(trace.last().0) {
            before
        } else {
            before.push(trace.last().0)
        }
    }
}

/// The predicates of all traces, each where it comes first.
pub open spec fn predicates(obs: Seq<Observation>) -> Seq<BoolTerm>
    decreases obs.len(),
{
    if obs.len() == 0 {
        Seq::empty()
    } else {
        with_trace(predicates(obs.drop_last()), obs.last().trace)
    }
}

pub open spec fn all_same(obs: Seq<Observation>) -> bool {
    forall|i: int| 0 <= i < obs.len() ==> (#[trigger] obs[i]).result == obs[0].result
}

/// Whether a predicate is in every trace, and taken both ways.
pub open spec fn splits(obs: Seq<Observation>, p: BoolTerm) -> bool {
    &&& forall|i: int| 0 <= i < obs.len() ==> direction((#[trigger] obs[i]).trace, p) is Some
    &&& side(obs, p, true).len() > 0
    &&& side(obs, p, false).len() > 0
}

/// Two sides under a predicate; one, if they are the same.
pub open spec fn joined(p: BoolTerm, a: BytesTerm, b: BytesTerm) -> BytesTerm {
    if a == b {
        a
    } else {
        BytesTerm::If { cond: Box::new(p), if_true: Box::new(a), if_false: Box::new(b) }
    }
}

/// One expression for all observations: their common result, or a split at the first
/// predicate of which both sides can be merged.
pub open spec fn merged(obs: Seq<Observation>, depth: nat) -> Option<BytesTerm>
    decreases (17 - depth) as int, 1nat, 0nat,
    when depth <= 17
{
    if obs.len() == 0 || depth > 16 {
        None
    } else if all_same(obs) {
        Some(obs[0].result)
    } else {
        first_split(obs, depth, 0)
    }
}

/// The merge at the first predicate that splits, from a place on.
pub open spec fn first_split(obs: Seq<Observation>, depth: nat, k: nat) -> Option<BytesTerm>
    decreases (17 - depth) as int, 0nat, predicates(obs).len() - k,
    when depth <= 17
{
    if k >= predicates(obs).len() || depth > 16 {
        None
    } else {
        let p = predicates(obs)[k as int];
        if splits(obs, p) {
            match (merged(side(obs, p, true), depth + 1), merged(side(obs, p, false), depth + 1)) {
                (Some(a), Some(b)) => Some(joined(p, a, b)),
                _ => first_split(obs, depth, k + 1),
            }
        } else {
            first_split(obs, depth, k + 1)
        }
    }
}

/// Whether a world takes the branches of a trace.
pub open spec fn takes(w: World, trace: Seq<(BoolTerm, bool)>) -> bool {
    forall|i: int| 0 <= i < trace.len() ==> eval::bool_value((#[trigger] trace[i]).0, w, None) == Ok::<bool, crate::plan::PlanError>(trace[i].1)
}

proof fn lemma_direction_taken(w: World, trace: Seq<(BoolTerm, bool)>, p: BoolTerm)
    requires
        takes(w, trace),
    ensures
        direction(trace, p) matches Some(b) ==> eval::bool_value(p, w, None) == Ok::<bool, crate::plan::PlanError>(b),
    decreases trace.len(),
{
    if trace.len() > 0 {
        if trace[0].0 != p {
            assert(takes(w, trace.drop_first())) by {
                assert forall|i: int| 0 <= i < trace.drop_first().len() implies eval::bool_value(
                    (#[trigger] trace.drop_first()[i]).0,
                    w,
                    None,
                ) == Ok::<bool, crate::plan::PlanError>(trace.drop_first()[i].1) by {
                    assert(trace.drop_first()[i] == trace[i + 1]);
                }
            }
            lemma_direction_taken(w, trace.drop_first(), p);
        }
    }
}

proof fn lemma_stripped_taken(w: World, trace: Seq<(BoolTerm, bool)>, p: BoolTerm)
    requires
        takes(w, trace),
    ensures
        takes(w, stripped(trace, p)),
    decreases trace.len(),
{
    if trace.len() > 0 {
        let before = trace.drop_last();
        assert(takes(w, before)) by {
            assert forall|i: int| 0 <= i < before.len() implies eval::bool_value((#[trigger] before[i]).0, w, None) == Ok::<
                bool,
                crate::plan::PlanError,
            >(before[i].1) by {
                assert(before[i] == trace[i]);
            }
        }
        lemma_stripped_taken(w, before, p);
        assert(trace.last() == trace[trace.len() - 1]);
    }
}

proof fn lemma_side_holds(obs: Seq<Observation>, p: BoolTerm, dir: bool, i: int) -> (j: int)
    requires
        0 <= i < obs.len(),
        direction(obs[i].trace, p) == Some(dir),
    ensures
        0 <= j < side(obs, p, dir).len(),
        side(obs, p, dir)[j] == (Observation { trace: stripped(obs[i].trace, p), result: obs[i].result }),
    decreases obs.len(),
{
    if i == obs.len() - 1 {
        side(obs, p, dir).len() - 1
    } else {
        assert(obs.drop_last()[i] == obs[i]);
        lemma_side_holds(obs.drop_last(), p, dir, i)
    }
}

/// A merged expression gives what an observation gave, in every world that takes the
/// branches of the observation.
pub proof fn lemma_merge_sound(obs: Seq<Observation>, depth: nat, w: World, i: int)
    requires
        depth <= 16,
        merged(obs, depth) is Some,
        0 <= i < obs.len(),
        takes(w, obs[i].trace),
    ensures
        eval::bytes_value(merged(obs, depth).unwrap(), w, None) == eval::bytes_value(obs[i].result, w, None),
    decreases 17 - depth, 1nat, 0nat,
{
    if !all_same(obs) {
        lemma_split_sound(obs, depth, 0, w, i);
    }
}

proof fn lemma_split_sound(obs: Seq<Observation>, depth: nat, k: nat, w: World, i: int)
    requires
        depth <= 16,
        first_split(obs, depth, k) is Some,
        0 <= i < obs.len(),
        takes(w, obs[i].trace),
    ensures
        eval::bytes_value(first_split(obs, depth, k).unwrap(), w, None) == eval::bytes_value(obs[i].result, w, None),
    decreases 17 - depth, 0nat, predicates(obs).len() - k,
{
    if k < predicates(obs).len() {
        let p = predicates(obs)[k as int];
        let yes = side(obs, p, true);
        let no = side(obs, p, false);
        if splits(obs, p) && merged(yes, depth + 1) is Some && merged(no, depth + 1) is Some {
            let dir = direction(obs[i].trace, p).unwrap();
            lemma_direction_taken(w, obs[i].trace, p);
            lemma_stripped_taken(w, obs[i].trace, p);
            let j = lemma_side_holds(obs, p, dir, i);
            assert(depth + 1 <= 16);
            if dir {
                lemma_merge_sound(yes, depth + 1, w, j);
            } else {
                lemma_merge_sound(no, depth + 1, w, j);
            }
        } else {
            lemma_split_sound(obs, depth, k + 1, w, i);
        }
    }
}

/* ─────────────── the merge ─────────────── */

fn strip(trace: &Vec<(BoolExpr, bool)>, pred: &BoolExpr) -> (r: Vec<(BoolExpr, bool)>)
    ensures
        trace_terms(r@) == stripped(trace_terms(trace@), pred.term()),
{
    let mut out: Vec<(BoolExpr, bool)> = Vec::new();
    let ghost all = trace_terms(trace@);
    assert(trace_terms(out@) =~= stripped(all.take(0), pred.term()));
    let n: usize = trace.len();
    for i in 0..n
        invariant
            n == trace@.len(),
            all == trace_terms(trace@),
            trace_terms(out@) == stripped(all.take(i as int), pred.term()),
    {
        let ghost before = trace_terms(out@);
        assert(all.take(i + 1).drop_last() =~= all.take(i as int));
        if !trace[i].0.same(pred) {
            out.push((trace[i].0.copy(), trace[i].1));
            assert(trace_terms(out@) =~= before.push(all[i as int]));
        }
    }
    assert(all.take(n as int) =~= all);
    out
}

fn direction_of(trace: &Vec<(BoolExpr, bool)>, pred: &BoolExpr) -> (r: Option<bool>)
    ensures
        r == direction(trace_terms(trace@), pred.term()),
{
    let ghost all = trace_terms(trace@);
    let n: usize = trace.len();
    assert(all.skip(0) =~= all);
    for i in 0..n
        invariant
            n == trace@.len(),
            all == trace_terms(trace@),
            direction(all, pred.term()) == direction(all.skip(i as int), pred.term()),
    {
        assert(all.skip(i as int)[0] == all[i as int]);
        assert(all.skip(i as int).drop_first() =~= all.skip(i + 1));
        if trace[i].0.same(pred) {
            return Some(trace[i].1);
        }
    }
    None
}

fn holds_predicate(preds: &Vec<BoolExpr>, p: &BoolExpr) -> (r: bool)
    ensures
        r == term::bool_terms(preds@).contains(p.term()),
{
    let n: usize = preds.len();
    for i in 0..n
        invariant
            n == preds@.len(),
            forall|j: int| 0 <= j < i ==> (#[trigger] preds@[j]).term() != p.term(),
    {
        if preds[i].same(p) {
            assert(term::bool_terms(preds@)[i as int] == p.term());
            return true;
        }
    }
    assert(!term::bool_terms(preds@).contains(p.term())) by {
        if term::bool_terms(preds@).contains(p.term()) {
            let j = choose|j: int| 0 <= j < preds@.len() && term::bool_terms(preds@)[j] == p.term();
            assert(preds@[j].term() == p.term());
        }
    }
    false
}

fn add_trace(preds: &mut Vec<BoolExpr>, trace: &Vec<(BoolExpr, bool)>)
    ensures
        term::bool_terms(final(preds)@) == with_trace(term::bool_terms(old(preds)@), trace_terms(trace@)),
{
    let ghost all = trace_terms(trace@);
    let ghost seen = term::bool_terms(preds@);
    let n: usize = trace.len();
    assert(all.take(0) =~= Seq::empty());
    for i in 0..n
        invariant
            n == trace@.len(),
            all == trace_terms(trace@),
            term::bool_terms(preds@) == with_trace(seen, all.take(i as int)),
    {
        let ghost before = term::bool_terms(preds@);
        assert(all.take(i + 1).drop_last() =~= all.take(i as int));
        if !holds_predicate(preds, &trace[i].0) {
            preds.push(trace[i].0.copy());
            assert(term::bool_terms(preds@) =~= before.push(all[i as int].0));
        }
    }
    assert(all.take(n as int) =~= all);
}

fn all_predicates(obs: &[(Vec<(BoolExpr, bool)>, BytesExpr)]) -> (r: Vec<BoolExpr>)
    ensures
        term::bool_terms(r@) == predicates(observations_of(obs@)),
{
    let ghost all = observations_of(obs@);
    let mut out: Vec<BoolExpr> = Vec::new();
    assert(term::bool_terms(out@) =~= predicates(all.take(0)));
    let n: usize = obs.len();
    for i in 0..n
        invariant
            n == obs@.len(),
            all == observations_of(obs@),
            term::bool_terms(out@) == predicates(all.take(i as int)),
    {
        assert(all.take(i + 1).drop_last() =~= all.take(i as int));
        assert(all.take(i + 1).last() == all[i as int]);
        add_trace(&mut out, &obs[i].0);
    }
    assert(all.take(n as int) =~= all);
    out
}

/// The two sides of a predicate, if it is in every trace.
fn split(obs: &[(Vec<(BoolExpr, bool)>, BytesExpr)], pred: &BoolExpr) -> (r: Option<(
    Vec<(Vec<(BoolExpr, bool)>, BytesExpr)>,
    Vec<(Vec<(BoolExpr, bool)>, BytesExpr)>,
)>)
    ensures
        match r {
            Some((t, f)) => {
                &&& observations_of(t@) == side(observations_of(obs@), pred.term(), true)
                &&& observations_of(f@) == side(observations_of(obs@), pred.term(), false)
                &&& forall|i: int| 0 <= i < obs@.len() ==> direction((#[trigger] observations_of(obs@)[i]).trace, pred.term()) is Some
            },
            None => exists|i: int| 0 <= i < obs@.len() && direction((#[trigger] observations_of(obs@)[i]).trace, pred.term()) is None,
        },
{
    let ghost all = observations_of(obs@);
    let ghost p = pred.term();
    let mut t: Vec<(Vec<(BoolExpr, bool)>, BytesExpr)> = Vec::new();
    let mut f: Vec<(Vec<(BoolExpr, bool)>, BytesExpr)> = Vec::new();
    assert(observations_of(t@) =~= side(all.take(0), p, true));
    assert(observations_of(f@) =~= side(all.take(0), p, false));
    let n: usize = obs.len();
    for i in 0..n
        invariant
            n == obs@.len(),
            all == observations_of(obs@),
            p == pred.term(),
            observations_of(t@) == side(all.take(i as int), p, true),
            observations_of(f@) == side(all.take(i as int), p, false),
            forall|j: int| 0 <= j < i ==> direction((#[trigger] all[j]).trace, p) is Some,
    {
        assert(all.take(i + 1).drop_last() =~= all.take(i as int));
        assert(all.take(i + 1).last() == all[i as int]);
        let ghost was_t = observations_of(t@);
        let ghost was_f = observations_of(f@);
        match direction_of(&obs[i].0, pred) {
            Some(true) => {
                t.push((strip(&obs[i].0, pred), obs[i].1.copy()));
                assert(observations_of(t@) =~= was_t.push(observations_of(t@).last()));
            }
            Some(false) => {
                f.push((strip(&obs[i].0, pred), obs[i].1.copy()));
                assert(observations_of(f@) =~= was_f.push(observations_of(f@).last()));
            }
            None => {
                return None; // predicate absent here: can't split on it
            }
        }
    }
    assert(all.take(n as int) =~= all);
    Some((t, f))
}

fn results_same(obs: &[(Vec<(BoolExpr, bool)>, BytesExpr)]) -> (r: bool)
    requires
        obs@.len() > 0,
    ensures
        r == all_same(observations_of(obs@)),
{
    let ghost all = observations_of(obs@);
    let n: usize = obs.len();
    for i in 0..n
        invariant
            n == obs@.len(),
            n > 0,
            all == observations_of(obs@),
            forall|j: int| 0 <= j < i ==> (#[trigger] all[j]).result == all[0].result,
    {
        assert(all[i as int].result == obs@[i as int].1.term());
        assert(all[0].result == obs@[0].1.term());
        if !obs[i].1.same(&obs[0].1) {
            return false;
        }
    }
    true
}

/// Merge per-world observations `(predicate trace, result)` into one expression.
///
/// If every result is identical, that single expression is the plan. Otherwise
/// find a predicate that appears in *every* trace and is taken both ways across
/// the set, partition on it, recursively merge each side, and combine as
/// `if(pred, then, else)`. Predicates that don't cleanly separate the results
/// are skipped; if none separates them, the set is unmergeable (`None`) and the
/// view falls back to simulate. Everything here is still verified downstream, so
/// an over-eager merge is caught rather than shipped.
pub fn merge_observations(obs: &[(Vec<(BoolExpr, bool)>, BytesExpr)], depth: usize) -> (r: Option<BytesExpr>)
    ensures
        depth > 16 ==> r is None,
        depth <= 16 ==> (match r {
            Some(e) => merged(observations_of(obs@), depth as nat) == Some(e.term()),
            None => merged(observations_of(obs@), depth as nat) is None,
        }),
    decreases (if depth <= 17 { 17 - depth } else { 0 }),
{
    let ghost all = observations_of(obs@);
    if obs.len() == 0 || depth > 16 {
        return None;
    }
    if results_same(obs) {
        assert(all[0].result == obs@[0].1.term());
        return Some(obs[0].1.copy());
    }
    // candidate split predicates: the union of all predicates seen.
    let candidates = all_predicates(obs);
    let n: usize = candidates.len();
    assert(n == predicates(all).len());
    for k in 0..n
        invariant
            n == candidates@.len() == predicates(all).len(),
            all == observations_of(obs@),
            depth <= 16,
            term::bool_terms(candidates@) == predicates(all),
            merged(all, depth as nat) == first_split(all, depth as nat, k as nat),
    {
        let ghost p = predicates(all)[k as int];
        assert(term::bool_terms(candidates@)[k as int] == p);
        assert(candidates@[k as int].term() == p);
        if let Some((t, f)) = split(obs, &candidates[k]) {
            if t.len() > 0 && f.len() > 0 {
                assert(observations_of(t@).len() == t@.len());
                assert(observations_of(f@).len() == f@.len());
                assert(splits(all, p));
                let a = merge_observations(t.as_slice(), depth + 1);
                let b = merge_observations(f.as_slice(), depth + 1);
                proof {
                    if depth == 16 {
                        assert(merged(side(all, p, true), 17) is None);
                    }
                }
                if let (Some(a), Some(b)) = (a, b) {
                    if a.same(&b) {
                        return Some(a); // predicate didn't actually affect the result
                    }
                    return Some(BytesExpr::If {
                        cond: Box::new(candidates[k].copy()),
                        if_true: Box::new(a),
                        if_false: Box::new(b),
                    });
                }
            } else {
                assert(observations_of(t@).len() == t@.len());
                assert(observations_of(f@).len() == f@.len());
                assert(!splits(all, p));
            }
        }
    }
    None
}

} // verus!
