//! Recovering the whole decision tree of a branchy view by concolic path forking.
use vstd::prelude::*;
use crate::analysis::lift::merge::Observation;
use crate::analysis::lift::module::{WasmModule, PAGE};
use crate::analysis::lift::sym::simplify_bytes;
use crate::analysis::lift::worlds::{run_path_one, Discovered, Method, ValueSource, WidthState, Widths, TIP};
use crate::analysis::lift::{merge, sym, worlds};
use crate::plan::{BoolExpr, BytesExpr, BytesTerm};

verus! {

/// Node budget for a shippable decision tree (bounds ABI size + verify cost).
pub const MAX_TREE_NODES: usize = 2000;

/// How many conditionals and leaves a decision tree has.
pub open spec fn tree_nodes(e: BytesTerm) -> nat
    decreases e,
{
    match e {
        BytesTerm::If { if_true, if_false, .. } => 1 + tree_nodes(*if_true) + tree_nodes(*if_false),
        _ => 1,
    }
}

/// The size of a decision tree, as far as a usize counts.
pub fn tree_size(e: &BytesExpr) -> (r: usize)
    ensures
        r == if tree_nodes(e.term()) < usize::MAX { tree_nodes(e.term()) as usize } else { usize::MAX },
    decreases e,
{
    match e {
        BytesExpr::If { if_true, if_false, .. } => {
            let a: usize = tree_size(if_true);
            let b: usize = tree_size(if_false);
            if a >= usize::MAX - 1 || b >= usize::MAX - 1 - a {
                usize::MAX
            } else {
                1 + a + b
            }
        }
        _ => 1,
    }
}

/// The exploration oracles, each a tip height and a value source. No single concrete
/// world reaches every branch (a branch guarded by `epoch_start > tip` is dead where
/// values are small, and vice-versa), and forcing a branch against a world that
/// contradicts it traps. So exploration draws from a pool: at each fork, whichever
/// oracle takes the wanted direction *naturally* supplies the live run. The first
/// twelve span small in-range values, large/overflowing values, and small-vs-large
/// tips so that both sides of every guard are covered by someone. The last six put
/// each key independently on one side: tiny (a small counter drives
/// "stale"/recompute branches) or above the tip (drives saturation/overflow), so
/// combinations a single uniform cap can't produce are reached by some oracle.
pub open spec fn pool_oracle(i: int) -> (u64, ValueSource) {
    let salt = (i as u64) ^ 0xa5a5;
    if i == 0 {
        (TIP, ValueSource::Capped { salt, cap: 8 })
    } else if i == 1 {
        (TIP, ValueSource::Capped { salt, cap: 64 })
    } else if i == 2 {
        (TIP, ValueSource::Capped { salt, cap: 1000 })
    } else if i == 3 {
        (TIP, ValueSource::Capped { salt, cap: 3_000_000 })
    } else if i == 4 {
        (1_000_000, ValueSource::Capped { salt, cap: 20 })
    } else if i == 5 {
        (500_000, ValueSource::Capped { salt, cap: 5 })
    } else if i == 6 {
        (200, ValueSource::Capped { salt, cap: 50 })
    } else if i == 7 {
        (200, ValueSource::Capped { salt, cap: 4000 })
    } else if i == 8 {
        (1000, ValueSource::Capped { salt, cap: 8 })
    } else if i == 9 {
        (8000, ValueSource::Capped { salt, cap: 200 })
    } else if i == 10 {
        (300_000, ValueSource::Capped { salt, cap: 2_000_000 })
    } else if i == 11 {
        (2_000_000, ValueSource::Capped { salt, cap: 5 })
    } else {
        (TIP, ValueSource::Split((i - 12) as u64))
    }
}

fn pool_at(i: usize) -> (r: (u64, ValueSource))
    requires
        i < 18,
    ensures
        r == pool_oracle(i as int),
{
    let salt: u64 = (i as u64) ^ 0xa5a5;
    if i == 0 {
        (TIP, ValueSource::Capped { salt, cap: 8 })
    } else if i == 1 {
        (TIP, ValueSource::Capped { salt, cap: 64 })
    } else if i == 2 {
        (TIP, ValueSource::Capped { salt, cap: 1000 })
    } else if i == 3 {
        (TIP, ValueSource::Capped { salt, cap: 3_000_000 })
    } else if i == 4 {
        (1_000_000, ValueSource::Capped { salt, cap: 20 })
    } else if i == 5 {
        (500_000, ValueSource::Capped { salt, cap: 5 })
    } else if i == 6 {
        (200, ValueSource::Capped { salt, cap: 50 })
    } else if i == 7 {
        (200, ValueSource::Capped { salt, cap: 4000 })
    } else if i == 8 {
        (1000, ValueSource::Capped { salt, cap: 8 })
    } else if i == 9 {
        (8000, ValueSource::Capped { salt, cap: 200 })
    } else if i == 10 {
        (300_000, ValueSource::Capped { salt, cap: 2_000_000 })
    } else if i == 11 {
        (2_000_000, ValueSource::Capped { salt, cap: 5 })
    } else {
        (TIP, ValueSource::Split((i - 12) as u64))
    }
}

/// The path under forced directions, from pool oracle `i` on: the first that gets
/// through. What was found out about widths stays found.
pub open spec fn pool_path(v: Method, forced: Seq<bool>, ws: WidthState, i: nat) -> (WidthState, Option<Observation>)
    decreases 18 - i,
{
    if i >= 18 {
        (ws, None)
    } else {
        let (height, source) = pool_oracle(i as int);
        let (next, o) = worlds::path_result(v, height, source, forced, ws, 16);
        match o {
            Some(o) => (next, Some(o)),
            None => pool_path(v, forced, next, i + 1),
        }
    }
}

/// What exploration has left, and the subtree it found.
pub ghost struct Explored {
    pub widths: WidthState,
    pub budget: nat,
    pub tree: Option<BytesTerm>,
}

/// The subtree under forced directions: a leaf, if the path under them branches no
/// further, and otherwise both sides of the first branch beyond them. If one side has
/// no live run, or the budget is used up, there is none: to put the live side in its
/// place would fabricate a wrong tree.
pub open spec fn subtree(v: Method, forced: Seq<bool>, ws: WidthState, budget: nat) -> Explored
    decreases budget,
{
    if budget == 0 {
        Explored { widths: ws, budget: 0, tree: None }
    } else {
        let left = (budget - 1) as nat;
        let (widths, o) = pool_path(v, forced, ws, 0);
        match o {
            None => Explored { widths, budget: left, tree: None },
            Some(o) => if o.trace.len() <= forced.len() {
                Explored { widths, budget: left, tree: Some(o.result) }
            } else {
                let a = subtree(v, forced.push(true), widths, left);
                let b = subtree(v, forced.push(false), a.widths, if a.budget <= left { a.budget } else { left });
                Explored {
                    widths: b.widths,
                    budget: b.budget,
                    tree: match (a.tree, b.tree) {
                        (Some(t), Some(f)) => Some(merge::joined(o.trace[forced.len() as int].0, t, f)),
                        _ => None,
                    },
                }
            },
        }
    }
}

proof fn lemma_budget(v: Method, forced: Seq<bool>, ws: WidthState, budget: nat)
    ensures
        subtree(v, forced, ws, budget).budget <= budget,
        budget > 0 ==> subtree(v, forced, ws, budget).budget < budget,
    decreases budget,
{
    if budget > 0 {
        let left = (budget - 1) as nat;
        let (widths, o) = pool_path(v, forced, ws, 0);
        if let Some(o) = o {
            if o.trace.len() > forced.len() {
                lemma_budget(v, forced.push(true), widths, left);
                let a = subtree(v, forced.push(true), widths, left);
                lemma_budget(v, forced.push(false), a.widths, a.budget);
            }
        }
    }
}

/// Run one path under `forced`, trying each pool oracle in turn: a forced
/// direction that traps under one oracle's concrete state may be live under
/// another (the symbolic result is oracle-independent, so any live run is
/// authoritative). Returns the lowered predicate trace (position-aligned with
/// the forced indices) and the lifted result.
fn run_path(m: &WasmModule, opcode: u128, arg_count: usize, forced: &[bool], found: &mut Discovered) -> (r: Option<(
    Vec<(BoolExpr, bool)>,
    BytesExpr,
)>)
    requires
        m.mem_min_pages * PAGE <= usize::MAX,
    ensures
        ({
            let v = Method { module: m.model(), opcode, arg_count: arg_count as nat };
            let (ws, o) = pool_path(v, forced@, old(found).state(), 0);
            final(found).state() == ws && worlds::path_found(r, o)
        }),
{
    let ghost v = Method { module: m.model(), opcode, arg_count: arg_count as nat };
    let ghost start = found.state();
    for i in 0..18usize
        invariant
            m.mem_min_pages * PAGE <= usize::MAX,
            v == (Method { module: m.model(), opcode, arg_count: arg_count as nat }),
            start == old(found).state(),
            pool_path(v, forced@, start, 0) == pool_path(v, forced@, found.state(), i as nat),
    {
        let (height, source) = pool_at(i);
        match run_path_one(m, opcode, arg_count, height, source, forced, found) {
            Some(r) => {
                return Some(r);
            }
            None => {}
        }
    }
    None
}

fn extended(forced: &[bool], dir: bool) -> (r: Vec<bool>)
    ensures
        r@ == forced@.push(dir),
{
    let mut out = vstd::slice::slice_to_vec(forced);
    out.push(dir);
    out
}

/// DFS one subtree: run the path under `forced`, and if a symbolic branch lies
/// beyond the forced prefix (the frontier), recurse into both of its sides and
/// combine as `if(frontier, then, else)`.
pub fn explore(m: &WasmModule, opcode: u128, arg_count: usize, forced: &[bool], found: &mut Discovered, budget: &mut usize) -> (r: Option<BytesExpr>)
    requires
        m.mem_min_pages * PAGE <= usize::MAX,
    ensures
        ({
            let v = Method { module: m.model(), opcode, arg_count: arg_count as nat };
            let x = subtree(v, forced@, old(found).state(), *old(budget) as nat);
            &&& final(found).state() == x.widths
            &&& *final(budget) == x.budget
            &&& *final(budget) <= *old(budget)
            &&& match r {
                Some(e) => x.tree == Some(e.term()),
                None => x.tree is None,
            }
        }),
    decreases *old(budget),
{
    let ghost v = Method { module: m.model(), opcode, arg_count: arg_count as nat };
    proof {
        lemma_budget(v, forced@, found.state(), *budget as nat);
    }
    if *budget == 0 {
        return None;
    }
    *budget = *budget - 1;
    match run_path(m, opcode, arg_count, forced, found) {
        None => None,
        Some((path, result)) => {
            let ghost trace = merge::trace_terms(path@);
            // No symbolic branch past the forced prefix: this path is a leaf.
            let at: usize = forced.len();
            if path.len() <= at {
                return Some(result);
            }
            // The frontier branch (first unforced symbolic branch).
            let cond = path[at].0.copy();
            assert(trace[at as int].0 == cond.term());
            let yes = extended(forced, true);
            let no = extended(forced, false);
            proof {
                lemma_budget(v, forced@.push(true), found.state(), *budget as nat);
            }
            let if_true = explore(m, opcode, arg_count, yes.as_slice(), found, budget);
            let if_false = explore(m, opcode, arg_count, no.as_slice(), found, budget);
            match (if_true, if_false) {
                (Some(t), Some(f)) => {
                    if t.same(&f) {
                        Some(t) // branch didn't affect the result
                    } else {
                        Some(BytesExpr::If { cond: Box::new(cond), if_true: Box::new(t), if_false: Box::new(f) })
                    }
                }
                // A fork went dead under *every* oracle in the pool: genuinely
                // infeasible (no input reaches it) or unsupported.
                _ => None,
            }
        }
    }
}

/// The exploration of a view from the root, within the budget.
pub open spec fn whole_tree(v: Method) -> Explored {
    subtree(v, Seq::empty(), (WidthState { widths: Map::empty(), tried: Map::empty() }), (MAX_TREE_NODES + 200) as nat)
}

/// The decision tree of a view and the widths it was found under, unless it is too
/// large to ship.
pub open spec fn explored_view(v: Method) -> Option<(BytesTerm, Map<Seq<u8>, usize>)> {
    match whole_tree(v).tree {
        Some(t) => if tree_nodes(t) <= MAX_TREE_NODES {
            Some((sym::simple_bytes(t), whole_tree(v).widths.widths))
        } else {
            None
        },
        None => None,
    }
}

/// Recover the FULL decision tree of a branchy view (`if(p0, if(p1, ...), ...)`) by
/// bounded concolic path forking. A single concrete run only lifts one path;
/// here every symbolic `if`/`br_if` is walked both ways by deterministic
/// re-execution with forced branch directions. Because the plan is verified against
/// the bytecode afterwards, any path whose forced concrete state went inconsistent
/// (or an infeasible predicate combination) simply loses: an over-eager tree is
/// rejected, never shipped.
pub fn explore_view(m: &WasmModule, opcode: u128, arg_count: usize) -> (r: Option<(BytesExpr, Widths)>)
    requires
        m.mem_min_pages * PAGE <= usize::MAX,
    ensures
        ({
            let v = Method { module: m.model(), opcode, arg_count: arg_count as nat };
            match r {
                Some((e, w)) => explored_view(v) == Some((e.term(), w.map())),
                None => explored_view(v) is None,
            }
        }),
{
    let mut found = Discovered::new();
    // Cap exploration near the shippable-tree bound: a view whose tree would run
    // past this has too many interacting paths to capture completely, so bail
    // rather than spend runs building something we'd discard anyway.
    let mut budget: usize = MAX_TREE_NODES + 200;
    let none: Vec<bool> = Vec::new();
    assert(none@ =~= Seq::empty());
    match explore(m, opcode, arg_count, none.as_slice(), &mut found, &mut budget) {
        Some(tree) => {
            // A tree this large is a view with too many interacting paths to capture
            // completely (and would bloat the ABI even if it verified): leave it to
            // simulate rather than probe-verify a monster.
            if tree_size(&tree) <= MAX_TREE_NODES {
                Some((simplify_bytes(tree), found.widths))
            } else {
                None
            }
        }
        None => None,
    }
}

} // verus!
