//! Concolic WASM interpreter: runs a contract's `__execute` concretely (so the
//! allocator, borsh, formatting all execute for real) while propagating a
//! symbolic tag on values and memory bytes. Storage/height/calldata host loads
//! inject symbolic sources; the tags on the final `response.data` bytes become
//! the plan.
//!
//! Scope: the integer/memory/control subset alkanes views use. Anything
//! unsupported (floats, SIMD, an out-of-scope host call) bails, and because
//! the lifter's output is verified against the bytecode, a partial or wrong
//! lift is simply discarded.
use vstd::prelude::*;
use std::rc::Rc;
use crate::analysis::lift::machine::{Executed, Fault, Machine, Setup, MAX_PATH};
use crate::analysis::lift::module::{WasmModule, PAGE};
use crate::analysis::lift::sym::{share, ByteProv, SymBool, SymBytes, SymNum};
use crate::analysis::lift::tags::Tags;
use crate::analysis::lift::value::Operand;
use crate::analysis::lift::{machine, module, sym, tags, value};
use crate::analysis::response;
use crate::analysis::response::{read_num, response_data_start};
use crate::bytes;
use crate::bytes::{copy_bytes, cut, encode_le};
use crate::plan::{BoolTerm, BytesTerm, NumTerm};
use crate::text::same_text;

verus! {

/// The storage that an interpreter run reads.
pub trait LiftStorage {
    /// The value at a key; unknown, unless the storage says.
    open spec fn value(&self, key: Seq<u8>) -> Seq<u8> {
        arbitrary()
    }

    fn read(&self, key: &[u8]) -> (r: Vec<u8>)
        ensures
            r@ == self.value(key@),
    ;
}

/// What a storage holds, as a function.
pub open spec fn storage_fn<S: LiftStorage>(s: S) -> spec_fn(Seq<u8>) -> Seq<u8> {
    |key: Seq<u8>| s.value(key)
}

/// The storage oracle + context the interpreter runs against.
pub struct LiftEnv<'a, S> {
    pub context: Vec<u8>,
    /// byte offset in `context` where the post-opcode input words begin
    pub calldata_off: usize,
    pub height: u64,
    pub storage: &'a S,
}

/// What a run came to.
pub enum LiftOutcome {
    /// response.data as recovered symbolic bytes.
    Data(Rc<SymBytes>),
    Trap(Fault),
    Disqualified(&'static str),
    Unsupported(Fault),
}

/// Whether an outcome is the one that a run comes to.
pub open spec fn outcome_agrees(r: LiftOutcome, e: (Machine, Executed)) -> bool {
    match (r, e.1) {
        (LiftOutcome::Data(d), Executed::Data(t)) => d.term() == t,
        (LiftOutcome::Trap(f), Executed::Trap(g)) => f == g,
        (LiftOutcome::Disqualified(d), Executed::Disqualified(e)) => d == e,
        (LiftOutcome::Unsupported(f), Executed::Unsupported(g)) => f == g,
        _ => false,
    }
}

/// A wasm machine with symbolic tags.
pub struct Interp<'a, S> {
    pub(super) m: &'a WasmModule,
    pub(super) mem: Vec<u8>,
    /// sparse symbolic provenance per memory byte
    pub(super) tags: Tags,
    pub(super) globals: Vec<i64>,
    pub(super) env: &'a LiftEnv<'a, S>,
    pub(super) steps: u64,
    pub(super) max_steps: u64,
    /// key SymBytes remembered between __request_storage and __load_storage
    pub(super) pending_key: Option<Rc<SymBytes>>,
    pub(super) disq: Option<&'static str>,
    /// Symbolic control-flow branches taken this run, in order: one entry per
    /// `if`/`br_if` whose condition carried a symbolic tag, holding the
    /// predicate and the direction taken. The predicate sequence is the path the
    /// merge / path-exploration driver reasons about.
    pub(super) path: Vec<(Rc<SymBool>, bool)>,
    /// Forced directions for symbolic branches, by index. When the k-th symbolic
    /// branch is reached and `k < forced.len()`, the run takes `forced[k]`
    /// instead of the concrete direction: this is how exploration walks both
    /// sides of a branch by deterministic re-execution (concolic path forking).
    /// Branches past the forced prefix follow their concrete value (and the
    /// first such is the exploration frontier).
    pub(super) forced: Vec<bool>,
    /// Storage keys asked for this run, in order.
    pub(super) asked: Vec<Vec<u8>>,
}

/// What a trace of branches is.
pub open spec fn path_terms(path: Seq<(Rc<SymBool>, bool)>) -> Seq<(BoolTerm, bool)> {
    Seq::new(path.len(), |i: int| (path[i].0.term(), path[i].1))
}

/// What a list of keys is.
pub open spec fn key_views(keys: Seq<Vec<u8>>) -> Seq<Seq<u8>> {
    Seq::new(keys.len(), |i: int| keys[i]@)
}

/// What optional symbolic bytes are.
pub open spec fn bytes_tag(b: Option<Rc<SymBytes>>) -> Option<BytesTerm> {
    match b {
        Some(b) => Some(b.term()),
        None => None,
    }
}

/// The setup of a run.
pub open spec fn setup_of<S: LiftStorage>(m: WasmModule, env: LiftEnv<'_, S>, max_steps: u64, forced: Seq<bool>) -> Setup {
    Setup {
        module: m.model(),
        context: env.context@,
        calldata_off: env.calldata_off,
        height: env.height,
        storage: storage_fn(*env.storage),
        max_steps,
        forced,
    }
}

impl<'a, S: LiftStorage> Interp<'a, S> {
    /// What the run does not change.
    pub open(super) spec fn setup(self) -> Setup {
        setup_of(*self.m, *self.env, self.max_steps, self.forced@)
    }

    /// What the run changes.
    pub open(super) spec fn machine(self) -> Machine {
        Machine {
            mem: self.mem@,
            tags: self.tags@,
            globals: self.globals@,
            pending: bytes_tag(self.pending_key),
            disq: self.disq,
            path: path_terms(self.path@),
            asked: key_views(self.asked@),
        }
    }

    /// How many steps the run has taken.
    pub open(super) spec fn steps_taken(self) -> u64 {
        self.steps
    }

    /// An interpreter at the start of a run, without forced branches.
    pub fn new(m: &'a WasmModule, env: &'a LiftEnv<'a, S>, max_steps: u64) -> (r: Interp<'a, S>)
        requires
            m.mem_min_pages * PAGE <= usize::MAX,
        ensures
            r.setup() == setup_of(*m, *env, max_steps, Seq::empty()),
            r.machine() == machine::started(m.model()),
            r.steps_taken() == 0,
    {
        let mut mem = copy_bytes(m.memory.as_slice());
        let size: usize = m.mem_min_pages as usize * PAGE;
        grow(&mut mem, size);
        let mut globals: Vec<i64> = Vec::new();
        for i in 0..m.globals.len()
            invariant
                globals@.len() == i,
                forall|j: int| 0 <= j < i ==> globals@[j] == (#[trigger] m.globals@[j]).init,
        {
            globals.push(m.globals[i].init);
        }
        let r = Interp {
            m,
            mem,
            tags: Tags::new(),
            globals,
            env,
            steps: 0,
            max_steps,
            pending_key: None,
            disq: None,
            path: Vec::new(),
            forced: Vec::new(),
            asked: Vec::new(),
        };
        proof {
            let st = machine::started(m.model());
            assert(r.globals@ =~= st.globals);
            assert(path_terms(r.path@) =~= Seq::empty());
            assert(key_views(r.asked@) =~= Seq::empty());
            assert(r.forced@ =~= Seq::empty());
        }
        r
    }

    /// Force the first `forced.len()` symbolic branches to the given directions
    /// (for path exploration). Must be set before `run_execute`.
    pub fn set_forced(&mut self, forced: Vec<bool>)
        ensures
            final(self).setup() == (Setup { forced: forced@, ..old(self).setup() }),
            final(self).machine() == old(self).machine(),
            final(self).steps_taken() == old(self).steps_taken(),
    {
        self.forced = forced;
    }

    /// The branch predicates taken this run, which the interpreter forgets.
    pub fn take_path(&mut self) -> (r: Vec<(Rc<SymBool>, bool)>)
        ensures
            path_terms(r@) == old(self).machine().path,
            final(self).machine() == (Machine { path: Seq::empty(), ..old(self).machine() }),
            final(self).setup() == old(self).setup(),
            final(self).steps_taken() == old(self).steps_taken(),
    {
        let mut out: Vec<(Rc<SymBool>, bool)> = Vec::new();
        out.append(&mut self.path);
        assert(path_terms(out@) =~= path_terms(old(self).path@));
        assert(path_terms(self.path@) =~= Seq::empty());
        out
    }

    /// The storage key asked for last.
    pub fn last_asked(&self) -> (r: Option<Vec<u8>>)
        ensures
            match r {
                Some(k) => self.machine().asked.len() > 0 && k@ == self.machine().asked.last(),
                None => self.machine().asked.len() == 0,
            },
    {
        let n = self.asked.len();
        if n == 0 {
            None
        } else {
            Some(copy_bytes(self.asked[n - 1].as_slice()))
        }
    }

    /// Resolve a branch's direction. Concrete conditions follow their value and
    /// aren't recorded (world-invariant). A symbolic condition is recorded, and
    /// its direction is overridden by `forced` when within the forced prefix:
    /// this is what lets exploration re-execute down the other side of a branch.
    pub(super) fn decide(&mut self, cond: &Operand) -> (r: bool)
        ensures
            (final(self).machine(), r) == machine::decided(old(self).setup(), old(self).machine(), cond.val()),
            final(self).setup() == old(self).setup(),
            final(self).steps_taken() == old(self).steps_taken(),
    {
        match cond.condition() {
            None => cond.holds(),
            Some(pred) => {
                let k: usize = self.path.len();
                let dir = if k < self.forced.len() { self.forced[k] } else { cond.holds() };
                if k < MAX_PATH {
                    let ghost was = path_terms(self.path@);
                    self.path.push((pred, dir));
                    assert(path_terms(self.path@) =~= was.push((pred.term(), dir)));
                }
                dir
            }
        }
    }

    /* ─────────────── memory helpers ─────────────── */

    pub(super) fn write_bytes(&mut self, at: usize, data: &[u8])
        requires
            at + data@.len() <= old(self).machine().mem.len(),
        ensures
            final(self).machine() == machine::with_bytes(old(self).machine(), at as int, data@),
            final(self).setup() == old(self).setup(),
            final(self).steps_taken() == old(self).steps_taken(),
    {
        let ghost before = self.mem@;
        let n: usize = data.len();
        assert(at + n <= self.mem.len());
        for i in 0..n
            invariant
                n == data@.len(),
                at + n <= before.len(),
                before.len() == self.mem@.len(),
                at + n <= usize::MAX,
                forall|j: int| 0 <= j < before.len() ==> #[trigger] self.mem@[j] == if at <= j < at + i {
                    data@[j - at]
                } else {
                    before[j]
                },
                self.machine() == (Machine { mem: self.mem@, ..old(self).machine() }),
                self.setup() == old(self).setup(),
                self.steps_taken() == old(self).steps_taken(),
        {
            self.mem.set(at + i, data[i]);
        }
        assert(self.mem@ =~= machine::written(before, at as int, data@));
        self.tags.clear(at, n);
    }

    /// Read the arraybuffer at `ptr` (len is the u32 LE at ptr-4) concretely.
    fn concrete_bytes(&self, ptr: u32) -> (r: Vec<u8>)
        ensures
            r@ == machine::buffer(self.machine().mem, ptr),
            r@.len() > 0 ==> ptr + r@.len() <= self.machine().mem.len(),
    {
        let at: usize = ptr as usize;
        if at < 4 || at > self.mem.len() {
            return Vec::new();
        }
        let len: u128 = read_num(self.mem.as_slice(), at - 4, 4);
        let room: usize = self.mem.len() - at;
        let end: usize = if len < room as u128 { at + len as usize } else { self.mem.len() };
        cut(self.mem.as_slice(), at, end)
    }

    /// Assemble contiguous provenance runs at [addr, addr+len) into SymBytes.
    fn recover_bytes(&self, addr: usize, len: usize) -> (r: Rc<SymBytes>)
        requires
            addr + len <= self.machine().mem.len(),
        ensures
            r.term() == machine::recovered_bytes(self.machine(), addr as int, len as int),
    {
        let ghost st = self.machine();
        let ghost all = machine::source_parts(st, addr as int, 0, len as int);
        let mut parts: Vec<Rc<SymBytes>> = Vec::new();
        let mut i: usize = 0;
        assert(sym::sym_terms(parts@) + all =~= all);
        assert(addr + len <= self.mem.len());
        while i < len
            invariant
                i <= len,
                addr + len <= self.mem@.len(),
                addr + len <= usize::MAX,
                st == self.machine(),
                sym::sym_terms(parts@) + machine::source_parts(st, addr as int, i as int, len as int) == all,
            decreases len - i,
        {
            let a: usize = addr + i;
            let max: usize = len - i;
            let mut run: usize = 1;
            let ghost was = sym::sym_terms(parts@);
            let part: Rc<SymBytes> = match self.tags.get(a) {
                Some(prov) => {
                    // extend a contiguous run of the same source with rising index
                    let mut more = true;
                    while more
                        invariant
                            1 <= run <= max,
                            a + max <= usize::MAX,
                            st.tags == self.tags@,
                            st.tags.contains_key(a as int),
                            prov.prov() == st.tags[a as int],
                            machine::source_run(st.tags, a as int, run as int, max as int)
                                == machine::source_run(st.tags, a as int, 1, max as int),
                            !more ==> run == machine::source_run(st.tags, a as int, 1, max as int),
                        decreases max - run, (if more { 1nat } else { 0nat }),
                    {
                        more = false;
                        if run < max {
                            if let Some(next) = self.tags.get(a + run) {
                                if next.stamp.0 == prov.stamp.0 && next.stamp.1 == prov.stamp.1
                                    && next.index as u128 == prov.index as u128 + run as u128 {
                                    assert(machine::continues(st.tags, a as int, run as int));
                                    run = run + 1;
                                    more = true;
                                }
                            }
                        }
                    }
                    // a run from the source's first byte on: use the source as-is
                    if prov.index == 0 {
                        share(&prov.src)
                    } else {
                        // partial: fall back to a concrete slice of the memory
                        SymBytes::Const(cut(self.mem.as_slice(), a, a + run)).rc()
                    }
                }
                None => {
                    // concrete byte run
                    let mut more = true;
                    while more
                        invariant
                            1 <= run <= max,
                            a + max <= usize::MAX,
                            st.tags == self.tags@,
                            machine::plain_run(st.tags, a as int, run as int, max as int)
                                == machine::plain_run(st.tags, a as int, 1, max as int),
                            !more ==> run == machine::plain_run(st.tags, a as int, 1, max as int),
                        decreases max - run, (if more { 1nat } else { 0nat }),
                    {
                        more = false;
                        if run < max {
                            if self.tags.get(a + run).is_none() {
                                run = run + 1;
                                more = true;
                            }
                        }
                    }
                    SymBytes::Const(cut(self.mem.as_slice(), a, a + run)).rc()
                }
            };
            let ghost rest = machine::source_parts(st, addr as int, i + run, len as int);
            assert(machine::source_parts(st, addr as int, i as int, len as int) == seq![part.term()] + rest);
            parts.push(part);
            assert(sym::sym_terms(parts@) =~= was.push(part.term()));
            assert(was + (seq![part.term()] + rest) =~= was.push(part.term()) + rest);
            i = i + run;
        }
        assert(sym::sym_terms(parts@) =~= all);
        SymBytes::normalize(parts).rc()
    }

    /// Recover the key's symbolic bytes from the provenance at `ptr`.
    fn read_key(&self, ptr: u32) -> (r: Rc<SymBytes>)
        ensures
            r.term() == machine::recovered_key(self.machine(), ptr),
    {
        let b = self.concrete_bytes(ptr);
        let n: usize = b.len();
        if n == 0 {
            // nothing to recover, wherever the pointer leads
            proof {
                assert(machine::source_parts(self.machine(), ptr as int, 0, 0) =~= Seq::empty());
                assert(sym::sym_terms(Seq::<Rc<SymBytes>>::empty()) =~= Seq::empty());
            }
            return SymBytes::normalize(Vec::new()).rc();
        }
        self.recover_bytes(ptr as usize, n)
    }

    /// Parse the serialized ExtendedCallResponse in memory at `ptr`, find the
    /// data byte range, and recover its symbolic bytes.
    pub(super) fn extract_response(&self, ptr: u32) -> (r: Option<Rc<SymBytes>>)
        ensures
            bytes_tag(r) == machine::response_term(self.machine(), ptr),
    {
        let b = self.concrete_bytes(ptr);
        match response_data_start(b.as_slice()) {
            Err(_) => None,
            Ok(p) => {
                proof {
                    lemma_response_not_empty(b@);
                }
                assert(ptr + b@.len() <= self.mem.len());
                Some(self.recover_bytes(ptr as usize + p, b.len() - p))
            }
        }
    }

    /* ─────────────── host imports ─────────────── */

    fn load_context(&mut self, ptr: usize) -> (r: Result<(), Fault>)
        ensures
            r is Ok <==> machine::in_memory(old(self).machine().mem, ptr as int, old(self).setup().context.len() as int),
            r is Err ==> r == Err::<(), Fault>(Fault::OutOfBounds) && final(self).machine() == old(self).machine(),
            r is Ok ==> final(self).machine() == ({
                let cx = old(self).setup();
                let st = machine::with_bytes(old(self).machine(), ptr as int, cx.context);
                let off = cx.calldata_off as u32 as int;
                if off < cx.context.len() {
                    Machine {
                        tags: machine::calldata_tags(
                            st.tags,
                            ptr + off,
                            cx.context.len() - off,
                            old(self).steps_taken(),
                        ),
                        ..st
                    }
                } else {
                    st
                }
            }),
            final(self).setup() == old(self).setup(),
            final(self).steps_taken() == old(self).steps_taken(),
    {
        let n: usize = self.env.context.len();
        if n > self.mem.len() || ptr > self.mem.len() - n {
            return Err(Fault::OutOfBounds);
        }
        assert(ptr + n <= self.mem.len());
        let context = copy_bytes(self.env.context.as_slice());
        self.write_bytes(ptr, context.as_slice());
        // tag the post-opcode input words as calldata bytes
        let off: usize = self.env.calldata_off as u32 as usize;
        if off < n {
            let ghost st = self.machine();
            let at: usize = ptr + off;
            let count: usize = n - off;
            let now: u64 = self.steps;
            assert(machine::calldata_tags(st.tags, at as int, 0, now) =~= st.tags);
            for j in 0..count
                invariant
                    at + count <= usize::MAX,
                    self.machine() == (Machine { tags: machine::calldata_tags(st.tags, at as int, j as int, now), ..st }),
                    self.setup() == old(self).setup(),
                    self.steps_taken() == old(self).steps_taken(),
            {
                let src = SymBytes::Calldata { start: 0, len: None }.rc();
                self.tags.insert(at + j, ByteProv { src, index: j as u32, stamp: (now, j as u32) });
                assert(self.tags@ =~= machine::calldata_tags(st.tags, at as int, j + 1, now));
            }
        }
        Ok(())
    }

    /// What the storage holds at a key, noting that it was asked for.
    fn ask(&mut self, key: &Vec<u8>) -> (r: Vec<u8>)
        ensures
            r@ == (old(self).setup().storage)(key@),
            final(self).machine() == (Machine { asked: old(self).machine().asked.push(key@), ..old(self).machine() }),
            final(self).setup() == old(self).setup(),
            final(self).steps_taken() == old(self).steps_taken(),
    {
        let ghost was = key_views(self.asked@);
        let key = copy_bytes(key.as_slice());
        let value = self.env.storage.read(key.as_slice());
        self.asked.push(key);
        assert(key_views(self.asked@) =~= was.push(key@));
        value
    }

    /// Writes a value and tags its bytes as those of one source.
    fn write_tagged(&mut self, at: usize, data: &Vec<u8>, src: &Rc<SymBytes>) -> (r: Result<(), Fault>)
        ensures
            r is Ok <==> machine::in_memory(old(self).machine().mem, at as int, data@.len() as int),
            r is Err ==> r == Err::<(), Fault>(Fault::OutOfBounds) && final(self).machine() == old(self).machine(),
            r is Ok ==> final(self).machine() == ({
                let st = machine::with_bytes(old(self).machine(), at as int, data@);
                Machine {
                    tags: tags::tagged(st.tags, at as int, data@.len() as int, src.term(), (old(self).steps_taken(), 0)),
                    ..st
                }
            }),
            final(self).setup() == old(self).setup(),
            final(self).steps_taken() == old(self).steps_taken(),
    {
        let n: usize = data.len();
        if n > self.mem.len() || at > self.mem.len() - n {
            return Err(Fault::OutOfBounds);
        }
        assert(at + n <= self.mem.len());
        self.write_bytes(at, data.as_slice());
        let now: u64 = self.steps;
        self.tags.tag(at, n, src, (now, 0));
        Ok(())
    }

    pub(super) fn host_call(&mut self, name: &str, args: &Vec<Operand>) -> (r: Result<Vec<Operand>, Fault>)
        ensures
            ({
                let (st, out) = machine::host_called(
                    old(self).setup(),
                    old(self).machine(),
                    old(self).steps_taken(),
                    name@,
                    value::vals(args@),
                );
                &&& final(self).machine() == st
                &&& match (r, out) {
                    (Ok(v), Ok(w)) => value::vals(v@) == w,
                    (Err(f), Err(g)) => f == g,
                    _ => false,
                }
            }),
            final(self).setup() == old(self).setup(),
            final(self).steps_taken() == old(self).steps_taken(),
    {
        let ghost vs = value::vals(args@);
        if same_text(name, "__request_context") {
            return Ok(single(Operand::con(self.env.context.len() as u64)));
        }
        if same_text(name, "__load_context") {
            if args.len() < 1 {
                return Err(Fault::Malformed);
            }
            assert(vs[0] == args@[0].val());
            let ptr: usize = args[0].c as u32 as usize;
            return match self.load_context(ptr) {
                Ok(()) => Ok(single(Operand::con(self.env.context.len() as u64))),
                Err(f) => Err(f),
            };
        }
        if same_text(name, "__request_storage") {
            if args.len() < 1 {
                return Err(Fault::Malformed);
            }
            assert(vs[0] == args@[0].val());
            let ptr: u32 = args[0].c as u32;
            let key = self.read_key(ptr);
            let concrete = self.concrete_bytes(ptr);
            let value = self.ask(&concrete);
            self.pending_key = Some(key);
            return Ok(single(Operand::con(value.len() as u64)));
        }
        if same_text(name, "__load_storage") {
            if args.len() < 2 {
                return Err(Fault::Malformed);
            }
            assert(vs[0] == args@[0].val());
            assert(vs[1] == args@[1].val());
            let ptr: u32 = args[0].c as u32;
            let out: usize = args[1].c as u32 as usize;
            let concrete = self.concrete_bytes(ptr);
            let source = match &self.pending_key {
                Some(k) => share(k),
                None => self.read_key(ptr),
            };
            let value = self.ask(&concrete);
            let src = SymBytes::Storage(source).rc();
            return match self.write_tagged(out, &value, &src) {
                Ok(()) => Ok(single(Operand::con(value.len() as u64))),
                Err(f) => Err(f),
            };
        }
        if same_text(name, "__height") {
            if args.len() < 1 {
                return Err(Fault::Malformed);
            }
            assert(vs[0] == args@[0].val());
            let ptr: usize = args[0].c as u32 as usize;
            let height = encode_le(self.env.height as u128, 8);
            proof {
                bytes::lemma_le_bytes_len(self.env.height as int, 8);
            }
            let of = SymNum::Height.rc();
            assert(of.term() == NumTerm::Height);
            let src = SymBytes::Le { of, width: 8 }.rc();
            return match self.write_tagged(ptr, &height, &src) {
                Ok(()) => {
                    let none: Vec<Operand> = Vec::new();
                    assert(value::vals(none@) =~= Seq::empty());
                    Ok(none)
                }
                Err(f) => Err(f),
            };
        }
        if same_text(name, "__log") {
            let none: Vec<Operand> = Vec::new();
            assert(value::vals(none@) =~= Seq::empty());
            return Ok(none);
        }
        if same_text(name, "abort") {
            return Err(Fault::Abort);
        }
        // pure-but-unmodeled and impure host calls disqualify a plan
        self.disq = Some(disqualifier_of(name));
        Err(Fault::Disqualified)
    }
}

/// Why a host function other than the modeled ones disqualifies a view.
fn disqualifier_of(name: &str) -> (r: &'static str)
    ensures
        r == machine::disqualifier(name@),
{
    if same_text(name, "__call") || same_text(name, "__staticcall") || same_text(name, "__delegatecall") {
        "extcall"
    } else if same_text(name, "__request_transaction") || same_text(name, "__load_transaction") {
        "transaction"
    } else if same_text(name, "__request_block") || same_text(name, "__load_block") {
        "block"
    } else if same_text(name, "__balance") {
        "__balance"
    } else if same_text(name, "__sequence") {
        "__sequence"
    } else if same_text(name, "__returndatacopy") {
        "__returndatacopy"
    } else {
        "unknown host import"
    }
}

fn single(v: Operand) -> (r: Vec<Operand>)
    ensures
        value::vals(r@) == seq![v.val()],
{
    let mut out: Vec<Operand> = Vec::new();
    out.push(v);
    assert(value::vals(out@) =~= seq![v.val()]);
    out
}

/// Fills memory up to `size` with zeros.
pub(super) fn grow(mem: &mut Vec<u8>, size: usize)
    ensures
        final(mem)@ == if old(mem)@.len() < size {
            old(mem)@ + module::zeros(size - old(mem)@.len())
        } else {
            old(mem)@
        },
{
    let ghost before = mem@;
    if mem.len() < size {
        mem.resize(size, 0);
        proof {
            assert forall|i: int| 0 <= i < before.len() implies mem@[i] == before[i] by {
                assert(mem@.subrange(0, before.len() as int)[i] == mem@[i]);
            }
            assert(mem@ =~= before + module::zeros(size - before.len()));
        }
    }
}

/// A response has at least its transfer count.
proof fn lemma_response_not_empty(b: Seq<u8>)
    ensures
        response::data_start(b) is Ok ==> b.len() >= 16,
{
}

} // verus!
