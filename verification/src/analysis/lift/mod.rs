//! Concolic lifter: recover a plan for a view by symbolically executing its
//! wasm, rather than fitting a template. Covers arbitrary straight-line pure
//! computation over storage/height/calldata: anything the plan IR can express.
//!
//! One concrete path is executed with a storage oracle that returns non-empty
//! values (so storage-dependent branches are taken); the symbolic tags on the
//! resulting `response.data` bytes lower to a `BytesExpr`. Data-dependent
//! branches within the value computation collapse to that path's choice, so the
//! lifted plan is only kept if it survives verification, which, run against the
//! bytecode over many oracles, rejects any path-specific or width-wrong lift.
use vstd::prelude::*;
use crate::analysis::host;
use crate::analysis::host::{Oracle, OracleModel, Outcome, Prober, ProberModel};
use crate::analysis::synth;
use crate::analysis::synth::{rand_args, Rng};
use crate::analysis::verify;
use crate::analysis::verify::{differential, Case, CaseSource};
use crate::bytes;
use crate::bytes::{copy_bytes, encode_le, ByteMap};
use crate::plan::BytesExpr;

pub mod explore;
pub mod interp;
pub mod interp_exec;
pub mod laws;
pub mod machine;
pub mod machine_laws;
pub mod merge;
pub mod module;
pub mod module_laws;
pub mod number_laws;
pub mod op;
pub mod sections;
pub mod simple_laws;
pub mod sym;
pub mod tag_laws;
pub mod tags;
pub mod tree_laws;
pub mod value;
pub mod view;
pub mod worlds;

pub use merge::merge_observations;
pub use view::lift_view;
pub use worlds::Widths;

verus! {

/// The first `n` keys given random values of their widths: the generator's state, and
/// the storage. Occasionally a key is left empty (to exercise unset reads).
pub open spec fn draw_widths(s: u64, keys: Seq<Seq<u8>>, n: nat, widths: Map<Seq<u8>, usize>) -> (u64, Map<Seq<u8>, Seq<u8>>)
    decreases n,
{
    if n == 0 {
        (s, Map::empty())
    } else {
        let (t, m) = draw_widths(s, keys, (n - 1) as nat, widths);
        let key = keys[n - 1];
        let (u, pick) = synth::draw64(t);
        if pick % 5 == 0 {
            (u, m)
        } else {
            let (v, value) = synth::draw_value(u);
            (v, if m.dom().contains(key) { m } else { m.insert(key, bytes::le_bytes(value as int, worlds::width_of(widths, key))) })
        }
    }
}

/// A random world in which the keys that the method reads there hold random values of
/// the widths it was lifted under; none if the method is disqualified.
pub open spec fn draw_lifted(p: ProberModel, opcode: u128, arg_count: nat, widths: Map<Seq<u8>, usize>, s: u64) -> Option<Case> {
    let (t, h) = synth::draw64(s);
    let (u, args) = synth::draw_args(t, arg_count);
    let empty = OracleModel { height: h % 2_000_000, ..host::default_oracle() };
    match p.outcome(opcode, args, empty) {
        Err(_) => None,
        Ok(run) => if run.outcome is Disqualified {
            None
        } else {
            let (v, storage) = draw_widths(u, run.keys, run.keys.len(), widths);
            Some(Case { state: v, oracle: OracleModel { storage, ..empty }, args })
        },
    }
}

/// The cases that populate the keys that a lifted method reads.
pub open spec fn lifted_cases(p: ProberModel, opcode: u128, arg_count: nat, widths: Map<Seq<u8>, usize>) -> spec_fn(u64) -> Option<Case> {
    |s: u64| draw_lifted(p, opcode, arg_count, widths, s)
}

/// Cases that populate the keys that a lifted method reads.
pub struct LiftedCases<'a> {
    pub prober: &'a Prober,
    pub opcode: u128,
    pub arg_count: usize,
    pub widths: &'a Widths,
}

impl<'a> CaseSource for LiftedCases<'a> {
    open spec fn case(&self, s: u64) -> Option<Case> {
        draw_lifted(self.prober.model(), self.opcode, self.arg_count as nat, self.widths.map(), s)
    }

    fn draw(&self, rng: &mut Rng) -> (r: Option<(Oracle, Vec<u128>)>) {
        let mut oracle = Oracle::default();
        oracle.height = rng.next_u64() % 2_000_000;
        let args = rand_args(rng, self.arg_count);
        // discover keys read with empty storage in this world
        let run = match self.prober.run(self.opcode, args.as_slice(), &oracle) {
            Err(_) => {
                return None;
            }
            Ok(run) => run,
        };
        if let Outcome::Disqualified(_) = &run.outcome {
            return None;
        }
        let ghost s = rng.state();
        let ghost keys = run.model().keys;
        let mut storage: ByteMap<Vec<u8>> = ByteMap::new();
        assert(bytes::bytes_map(storage.map()) =~= Map::empty());
        let n: usize = run.keys.len();
        for i in 0..n
            invariant
                n == run.keys@.len(),
                keys == run.model().keys,
                (rng.state(), bytes::bytes_map(storage.map())) == draw_widths(s, keys, i as nat, self.widths.map()),
        {
            // random value, occasionally empty (to exercise unset reads),
            // truncated to the key's discovered width so its fixed-width
            // deserializer doesn't panic (as the lift ran).
            let ghost before = bytes::bytes_map(storage.map());
            assert(keys[i as int] == run.keys@[i as int]@);
            if rng.next_u64() % 5 != 0 {
                let v: u128 = rng.value_u128();
                if storage.get(run.keys[i].as_slice()).is_none() {
                    let w: usize = worlds::width_for(self.widths, run.keys[i].as_slice());
                    storage.insert(copy_bytes(run.keys[i].as_slice()), encode_le(v, w));
                    assert(bytes::bytes_map(storage.map()) =~= before.insert(
                        keys[i as int],
                        bytes::le_bytes(v as int, worlds::width_of(self.widths.map(), keys[i as int])),
                    ));
                }
            }
        }
        oracle.storage = storage;
        Some((oracle, args))
    }
}

/// Verify a lifted plan against the wasm. Each trial: pick a random world,
/// discover the keys the method reads there, populate them with random values,
/// run the wasm, and compare to the plan evaluated over the same storage.
/// A single mismatch rejects the plan (this is what catches path-specific or
/// width-wrong lifts).
pub fn verify_lifted(
    prober: &Prober,
    opcode: u128,
    arg_count: usize,
    expr: &BytesExpr,
    trials: u32,
    seed: u64,
    widths: &Widths,
) -> (r: Option<u32>)
    ensures
        r == verify::passed(
            prober.model(),
            opcode,
            lifted_cases(prober.model(), opcode, arg_count as nat, widths.map()),
            expr.term(),
            trials,
            seed,
        ),
{
    let cases = LiftedCases { prober, opcode, arg_count, widths };
    assert(verify::case_fn(cases) =~= lifted_cases(prober.model(), opcode, arg_count as nat, widths.map()));
    differential(prober, opcode, &cases, expr, trials, seed)
}

} // verus!
