//! Operator execution for the concolic interpreter. Single concrete path; symbolic
//! tags propagate through the integer/memory subset. Anything unsupported bails.
use vstd::prelude::*;
use std::rc::Rc;
use crate::analysis::lift::interp::{grow, Interp, LiftOutcome, LiftStorage};
use crate::analysis::lift::machine::{Ctrl, Fault, Flow, Frame, Machine, MAX_PAGES};
use crate::analysis::lift::module::{WasmModule, PAGE};
use crate::analysis::lift::op::{BlockShape, LoadOp, Op, StoreOp};
use crate::analysis::lift::sym::{share, SymBytes, SymNum};
use crate::analysis::lift::value::{exec_numeric, pop, pop_many, push, push_many, select, Operand};
use crate::analysis::lift::{interp, machine, module, tags, value};
use crate::bytes;
use crate::bytes::{cut, decode_le, encode_le};
use crate::plan::{term, BytesTerm, NumOp, NumTerm};

verus! {

/// A function under execution.
pub struct ExecFrame {
    pub locals: Vec<Operand>,
    pub stack: Vec<Operand>,
    pub blocks: Vec<Ctrl>,
    pub pc: usize,
}

impl ExecFrame {
    pub open spec fn frame(self) -> Frame {
        Frame {
            locals: value::vals(self.locals@),
            stack: value::vals(self.stack@),
            blocks: self.blocks@,
            pc: self.pc as int,
        }
    }
}

/// What an operator leads to; the frame goes on as it was left.
pub enum Step {
    Next,
    Return(Vec<Operand>),
    Call(u32, Vec<Operand>),
}

/// Whether a step came out as the operator says.
pub open spec fn agrees(r: Result<Step, Fault>, fr: ExecFrame, flow: Result<Flow, Fault>) -> bool {
    match (r, flow) {
        (Ok(Step::Next), Ok(Flow::Next(f))) => fr.frame() == f,
        (Ok(Step::Return(v)), Ok(Flow::Return(w))) => value::vals(v@) == w,
        (Ok(Step::Call(i, v)), Ok(Flow::Call(j, w, f))) => i == j && value::vals(v@) == w && fr.frame() == f,
        (Err(x), Err(y)) => x == y,
        _ => false,
    }
}

/*──────────────────────── block structure ────────────────────────*/

/// The matching `end` and `else` of every structured opener, by position.
pub struct BlockTable {
    pub ends: Vec<Option<usize>>,
    pub elses: Vec<Option<usize>>,
}

pub open spec fn lists(v: Seq<Option<usize>>, m: Map<int, usize>) -> bool {
    forall|i: int| 0 <= i < v.len() ==> match #[trigger] v[i] {
        Some(e) => m.contains_key(i) && m[i] == e,
        None => !m.contains_key(i),
    }
}

impl BlockTable {
    /// Whether the table describes a body.
    pub open spec fn describes(self, body: Seq<Op>) -> bool {
        let s = machine::structure(body, body.len() as int);
        &&& self.ends@.len() == body.len()
        &&& self.elses@.len() == body.len()
        &&& lists(self.ends@, s.ends)
        &&& lists(self.elses@, s.elses)
        &&& forall|i: int| 0 <= i < body.len() ==> (#[trigger] self.ends@[i] matches Some(e) ==> e < body.len())
        &&& forall|i: int| 0 <= i < body.len() ==> (#[trigger] self.elses@[i] matches Some(e) ==> e < body.len())
    }
}

/// Precompute matching `end` (and `else`) indices for each structured opener.
pub fn block_structure(body: &Vec<Op>) -> (r: BlockTable)
    ensures
        r.describes(body@),
{
    let n = body.len();
    let mut ends: Vec<Option<usize>> = Vec::new();
    let mut elses: Vec<Option<usize>> = Vec::new();
    for i in 0..n
        invariant
            ends@.len() == i,
            elses@.len() == i,
            forall|j: int| 0 <= j < i ==> #[trigger] ends@[j] is None,
            forall|j: int| 0 <= j < i ==> #[trigger] elses@[j] is None,
    {
        ends.push(None);
        elses.push(None);
    }
    let mut open: Vec<usize> = Vec::new();
    for i in 0..n
        invariant
            n == body@.len(),
            ends@.len() == n,
            elses@.len() == n,
            open@ == machine::structure(body@, i as int).open,
            forall|j: int| 0 <= j < open@.len() ==> #[trigger] open@[j] < i,
            lists(ends@, machine::structure(body@, i as int).ends),
            lists(elses@, machine::structure(body@, i as int).elses),
            forall|j: int| 0 <= j < n ==> (#[trigger] ends@[j] matches Some(e) ==> e < n),
            forall|j: int| 0 <= j < n ==> (#[trigger] elses@[j] matches Some(e) ==> e < n),
    {
        let ghost before = machine::structure(body@, i as int);
        let ghost after = machine::structure(body@, i + 1);
        match &body[i] {
            Op::Block(_) | Op::Loop(_) | Op::If(_) => {
                open.push(i);
            }
            Op::Else => {
                let k = open.len();
                if k > 0 {
                    let opener: usize = open[k - 1];
                    let ghost was = elses@;
                    elses.set(opener, Some(i));
                    assert forall|j: int| 0 <= j < elses@.len() implies match #[trigger] elses@[j] {
                        Some(e) => after.elses.contains_key(j) && after.elses[j] == e,
                        None => !after.elses.contains_key(j),
                    } by {
                        if j != opener {
                            assert(elses@[j] == was[j]);
                        }
                    }
                }
            }
            Op::End => {
                match open.pop() {
                    Some(opener) => {
                        let ghost was = ends@;
                        assert(opener == before.open.last());
                        ends.set(opener, Some(i));
                        assert forall|j: int| 0 <= j < ends@.len() implies match #[trigger] ends@[j] {
                            Some(e) => after.ends.contains_key(j) && after.ends[j] == e,
                            None => !after.ends.contains_key(j),
                        } by {
                            if j != opener {
                                assert(ends@[j] == was[j]);
                            }
                        }
                        assert(open@ =~= before.open.drop_last());
                    }
                    None => {}
                }
            }
            _ => {}
        }
    }
    BlockTable { ends, elses }
}

/// How many results a block has.
fn block_arity(m: &WasmModule, shape: BlockShape) -> (r: usize)
    ensures
        r == machine::block_results(m.model(), shape),
{
    match shape {
        BlockShape::Empty => 0,
        BlockShape::Operand => 1,
        BlockShape::Func(t) => {
            let at: usize = t as usize;
            if at < m.types.len() {
                assert(m.model().types[at as int] == m.types@[at as int].model());
                m.types[at].results.len()
            } else {
                0
            }
        }
    }
}

/// How many parameters a block has.
fn block_params(m: &WasmModule, shape: BlockShape) -> (r: usize)
    ensures
        r == machine::block_inputs(m.model(), shape),
{
    match shape {
        BlockShape::Func(t) => {
            let at: usize = t as usize;
            if at < m.types.len() {
                assert(m.model().types[at as int] == m.types@[at as int].model());
                m.types[at].params.len()
            } else {
                0
            }
        }
        _ => 0,
    }
}

/*──────────────────────── control flow ────────────────────────*/

/// Leaves `depth` blocks, or goes back to the start of a loop.
fn do_branch(fr: &mut ExecFrame, depth: u32) -> (r: bool)
    ensures
        match machine::branched(old(fr).frame(), depth as int) {
            Some(f) => r && final(fr).frame() == f,
            None => !r,
        },
{
    let ghost f0 = fr.frame();
    let depth: usize = depth as usize;
    if depth >= fr.blocks.len() {
        return false;
    }
    let t: usize = fr.blocks.len() - 1 - depth;
    let c = fr.blocks[t];
    let kept = if c.arity > 0 && fr.stack.len() >= c.arity {
        match pop_many(&mut fr.stack, c.arity) {
            Some(kept) => kept,
            None => Vec::new(),
        }
    } else {
        let none: Vec<Operand> = Vec::new();
        assert(value::vals(none@) =~= Seq::empty());
        none
    };
    let ghost rest = value::vals(fr.stack@);
    fr.stack.truncate(c.height);
    assert(value::vals(fr.stack@) =~= if c.height <= rest.len() { rest.take(c.height as int) } else { rest });
    push_many(&mut fr.stack, kept);
    fr.blocks.truncate(if c.is_loop { t + 1 } else { t });
    assert(fr.blocks@ =~= f0.blocks.take(if c.is_loop { t + 1 } else { t as int }));
    fr.pc = c.cont;
    true
}

/// The last values of the stack, as a function's results.
fn take_results(fr: &mut ExecFrame, n: usize) -> (r: Result<Vec<Operand>, Fault>)
    ensures
        match (r, machine::results(old(fr).frame().stack, n as int)) {
            (Ok(v), Ok(w)) => value::vals(v@) == w,
            (Err(x), Err(y)) => x == y,
            _ => false,
        },
{
    match pop_many(&mut fr.stack, n) {
        Some(out) => Ok(out),
        None => Err(Fault::Underflow),
    }
}

/// Follows a branch. One out of all blocks leaves the function.
fn follow(fr: &mut ExecFrame, depth: u32, n_results: usize) -> (r: Result<Step, Fault>)
    ensures
        agrees(r, *final(fr), machine::branch_flow(old(fr).frame(), depth as int, n_results as int)),
{
    if depth as usize == fr.blocks.len() {
        match take_results(fr, n_results) {
            Ok(out) => Ok(Step::Return(out)),
            Err(f) => Err(f),
        }
    } else if do_branch(fr, depth) {
        Ok(Step::Next)
    } else {
        Err(Fault::Malformed)
    }
}

/// Takes a function's arguments from the stack.
fn prepare_call(m: &WasmModule, fr: &mut ExecFrame, f: u32) -> (r: Result<Step, Fault>)
    requires
        old(fr).pc < usize::MAX,
    ensures
        agrees(r, *final(fr), machine::called(m.model(), old(fr).frame(), f, old(fr).frame().stack)),
{
    match m.func_sig(f) {
        None => Err(Fault::CallTarget),
        Some(sig) => {
            let n = sig.params.len();
            match pop_many(&mut fr.stack, n) {
                Some(args) => {
                    fr.pc = fr.pc + 1;
                    Ok(Step::Call(f, args))
                }
                None => Err(Fault::Underflow),
            }
        }
    }
}

/// Takes the arguments of a function called through the table.
fn prepare_call_as(m: &WasmModule, fr: &mut ExecFrame, ty: u32, f: u32) -> (r: Result<Step, Fault>)
    requires
        old(fr).pc < usize::MAX,
    ensures
        agrees(r, *final(fr), machine::called_as(m.model(), old(fr).frame(), ty, f, old(fr).frame().stack)),
{
    let at: usize = ty as usize;
    match m.func_sig(f) {
        None => Err(Fault::CallTarget),
        Some(sig) => {
            if at >= m.types.len() {
                return Err(Fault::Malformed);
            }
            assert(m.model().types[at as int] == m.types@[at as int].model());
            if !sig.same(&m.types[at]) {
                return Err(Fault::CallType);
            }
            prepare_call(m, fr, f)
        }
    }
}

/// Opens a block.
fn enter(fr: &mut ExecFrame, c: Ctrl)
    ensures
        final(fr).frame() == (Frame { blocks: old(fr).frame().blocks.push(c), ..old(fr).frame() }),
{
    fr.blocks.push(c);
}

impl<'a, S: LiftStorage> Interp<'a, S> {
    fn exec_control(&mut self, body: &Vec<Op>, table: &BlockTable, n_results: usize, fr: &mut ExecFrame) -> (r: Result<
        Step,
        Fault,
    >)
        requires
            table.describes(body@),
            old(fr).pc < body@.len(),
            machine::is_control(body@[old(fr).pc as int]),
        ensures
            ({
                let (st, flow) = machine::control_flow(
                    old(self).setup(),
                    old(self).machine(),
                    body@,
                    n_results as int,
                    old(fr).frame(),
                );
                &&& final(self).machine() == st
                &&& agrees(r, *final(fr), flow)
            }),
            final(self).setup() == old(self).setup(),
            final(self).steps_taken() == old(self).steps_taken(),
    {
        let m = self.m;
        let pc: usize = fr.pc;
        let ghost s = machine::structure(body@, body@.len() as int);
        let ghost f0 = fr.frame();
        assert(pc < body.len());
        match &body[pc] {
            Op::Block(shape) => {
                if block_params(m, *shape) != 0 {
                    return Err(Fault::Unsupported);
                }
                match table.ends[pc] {
                    Some(end) => {
                        let c = Ctrl {
                            end,
                            cont: end + 1,
                            arity: block_arity(m, *shape),
                            height: fr.stack.len(),
                            is_loop: false,
                        };
                        enter(fr, c);
                        fr.pc = pc + 1;
                        Ok(Step::Next)
                    }
                    None => Err(Fault::Malformed),
                }
            }
            Op::Loop(shape) => {
                if block_params(m, *shape) != 0 {
                    return Err(Fault::Unsupported);
                }
                match table.ends[pc] {
                    Some(end) => {
                        // branch to loop re-enters at body start
                        let c = Ctrl { end, cont: pc + 1, arity: 0, height: fr.stack.len(), is_loop: true };
                        enter(fr, c);
                        fr.pc = pc + 1;
                        Ok(Step::Next)
                    }
                    None => Err(Fault::Malformed),
                }
            }
            Op::If(shape) => {
                if block_params(m, *shape) != 0 {
                    return Err(Fault::Unsupported);
                }
                let cond = match pop(&mut fr.stack) {
                    Some(cond) => cond,
                    None => return Err(Fault::Underflow),
                };
                let taken = self.decide(&cond);
                let end: usize = match table.ends[pc] {
                    Some(end) => end,
                    None => return Err(Fault::Malformed),
                };
                if !taken && table.elses[pc].is_none() {
                    // no else: go on past the matching end
                    fr.pc = end + 1;
                    return Ok(Step::Next);
                }
                let c = Ctrl {
                    end,
                    cont: end + 1,
                    arity: block_arity(m, *shape),
                    height: fr.stack.len(),
                    is_loop: false,
                };
                enter(fr, c);
                fr.pc = match table.elses[pc] {
                    Some(other) => if taken { pc + 1 } else { other + 1 },
                    None => pc + 1,
                };
                Ok(Step::Next)
            }
            Op::Else => {
                // reached at end of then-branch: skip else, go to matching end
                let k = fr.blocks.len();
                if k == 0 {
                    return Err(Fault::Malformed);
                }
                fr.pc = fr.blocks[k - 1].end;
                Ok(Step::Next)
            }
            Op::End => match fr.blocks.pop() {
                Some(_) => {
                    assert(fr.blocks@ =~= f0.blocks.drop_last());
                    fr.pc = pc + 1;
                    Ok(Step::Next)
                }
                None => match take_results(fr, n_results) {
                    Ok(out) => Ok(Step::Return(out)),
                    Err(f) => Err(f),
                },
            },
            Op::Br(depth) => follow(fr, *depth, n_results),
            Op::BrIf(depth) => {
                let cond = match pop(&mut fr.stack) {
                    Some(cond) => cond,
                    None => return Err(Fault::Underflow),
                };
                if self.decide(&cond) {
                    follow(fr, *depth, n_results)
                } else {
                    fr.pc = pc + 1;
                    Ok(Step::Next)
                }
            }
            Op::BrTable(targets, default) => {
                let idx: usize = match pop(&mut fr.stack) {
                    Some(v) => v.c as u32 as usize,
                    None => return Err(Fault::Underflow),
                };
                let depth: u32 = if idx < targets.len() {
                    match targets[idx] {
                        Some(d) => d,
                        None => *default,
                    }
                } else {
                    *default
                };
                follow(fr, depth, n_results)
            }
            Op::Return => match take_results(fr, n_results) {
                Ok(out) => Ok(Step::Return(out)),
                Err(f) => Err(f),
            },
            Op::Call(f) => prepare_call(m, fr, *f),
            Op::CallIndirect(ty) => {
                let idx: usize = match pop(&mut fr.stack) {
                    Some(v) => v.c as usize,
                    None => return Err(Fault::Underflow),
                };
                if idx < m.table.len() {
                    if let Some(f) = m.table[idx] {
                        return prepare_call_as(m, fr, *ty, f);
                    }
                }
                Err(Fault::CallTarget)
            }
            _ => Err(Fault::Unreachable),
        }
    }

    /*──────────────────────── data ────────────────────────*/

    fn exec_data(&mut self, op: &Op, fr: &mut ExecFrame) -> (r: Result<Step, Fault>)
        requires
            old(fr).pc < usize::MAX,
            machine::is_data(*op),
        ensures
            ({
                let (st, flow) = machine::data_flow(old(self).machine(), *op, old(fr).frame());
                &&& final(self).machine() == st
                &&& agrees(r, *final(fr), flow)
            }),
            final(self).setup() == old(self).setup(),
            final(self).steps_taken() == old(self).steps_taken(),
    {
        let ghost f0 = fr.frame();
        match op {
            Op::Drop => {
                if pop(&mut fr.stack).is_none() {
                    return Err(Fault::Underflow);
                }
            }
            Op::Select => {
                let c = match pop(&mut fr.stack) {
                    Some(v) => v,
                    None => return Err(Fault::Underflow),
                };
                let b = match pop(&mut fr.stack) {
                    Some(v) => v,
                    None => return Err(Fault::Underflow),
                };
                let a = match pop(&mut fr.stack) {
                    Some(v) => v,
                    None => return Err(Fault::Underflow),
                };
                assert(value::vals(fr.stack@) =~= f0.stack.take(f0.stack.len() - 3));
                push(&mut fr.stack, select(c, a, b));
            }
            Op::LocalGet(i) => {
                let at: usize = *i as usize;
                if at >= fr.locals.len() {
                    return Err(Fault::Malformed);
                }
                let v = fr.locals[at].copy();
                assert(f0.locals[at as int] == v.val());
                push(&mut fr.stack, v);
            }
            Op::LocalSet(i) => {
                let v = match pop(&mut fr.stack) {
                    Some(v) => v,
                    None => return Err(Fault::Underflow),
                };
                let at: usize = *i as usize;
                if at >= fr.locals.len() {
                    return Err(Fault::Malformed);
                }
                fr.locals.set(at, v);
                assert(value::vals(fr.locals@) =~= f0.locals.update(at as int, v.val()));
            }
            Op::LocalTee(i) => {
                let k = fr.stack.len();
                if k == 0 {
                    return Err(Fault::Underflow);
                }
                let v = fr.stack[k - 1].copy();
                assert(f0.stack.last() == v.val());
                let at: usize = *i as usize;
                if at >= fr.locals.len() {
                    return Err(Fault::Malformed);
                }
                fr.locals.set(at, v);
                assert(value::vals(fr.locals@) =~= f0.locals.update(at as int, v.val()));
            }
            Op::GlobalGet(i) => {
                let at: usize = *i as usize;
                if at >= self.globals.len() {
                    return Err(Fault::Malformed);
                }
                push(&mut fr.stack, Operand::con(self.globals[at] as u64));
            }
            Op::GlobalSet(i) => {
                let v = match pop(&mut fr.stack) {
                    Some(v) => v,
                    None => return Err(Fault::Underflow),
                };
                let at: usize = *i as usize;
                if at >= self.globals.len() {
                    return Err(Fault::Malformed);
                }
                self.globals.set(at, v.c as i64);
            }
            Op::I32Const(v) => push(&mut fr.stack, Operand::con(*v as u32 as u64)),
            Op::I64Const(v) => push(&mut fr.stack, Operand::con(*v as u64)),
            _ => {}
        }
        fr.pc = fr.pc + 1;
        Ok(Step::Next)
    }

    /*──────────────────────── memory ────────────────────────*/

    fn recover_num(&self, addr: usize, width: usize) -> (r: Option<Rc<SymNum>>)
        requires
            addr + width <= usize::MAX,
            width == 1 || width == 2 || width == 4 || width == 8,
        ensures
            value::num_tag(r) == machine::recovered_num(self.machine().tags, addr as int, width as int),
    {
        let ghost ts = self.tags@;
        let first = match self.tags.get(addr) {
            Some(first) => first,
            None => return None,
        };
        // Byte index of this load within its source. Non-zero means we're
        // reading an interior/high slice of a wider value: e.g. the high 64
        // bits of a u128 read as two i64 words. That must stay symbolic (a
        // shift of the whole), not collapse to a concrete high word.
        let start: u32 = first.index;
        // Require a contiguous run [addr, addr+width) from one source with
        // consecutive indices start .. start+width.
        let mut j: usize = 1;
        while j < width
            invariant
                1 <= j <= width,
                addr + width <= usize::MAX,
                ts == self.tags@,
                ts.contains_key(addr as int),
                first.prov() == ts[addr as int],
                start == first.index,
                forall|i: int| 1 <= i < j ==> #[trigger] machine::continues(ts, addr as int, i),
            decreases width - j,
        {
            match self.tags.get(addr + j) {
                Some(p) => {
                    if p.stamp.0 != first.stamp.0 || p.stamp.1 != first.stamp.1
                        || p.index as u128 != start as u128 + j as u128 {
                        assert(!machine::continues(ts, addr as int, j as int));
                        return None;
                    }
                }
                None => {
                    assert(!machine::continues(ts, addr as int, j as int));
                    return None;
                }
            }
            j = j + 1;
        }
        // Does the SAME source continue immediately past the load? If so this is
        // a low/interior slice of a wider value and its excess-high bits must be
        // masked off; if not, the load reaches the value's tail.
        let more = match self.tags.get(addr + width) {
            Some(p) => p.stamp.0 == first.stamp.0 && p.stamp.1 == first.stamp.1 && p.index as u128 == start as u128
                + width as u128,
            None => false,
        };
        // The symbolic number for the WHOLE source value.
        let full: Rc<SymNum> = match &*first.src {
            SymBytes::Le { of, width: w } => {
                // A full, aligned reload of a stored value is just that value.
                if start == 0 && *w as usize == width && !more {
                    return Some(share(of));
                }
                share(of)
            }
            SymBytes::Storage(_) => SymNum::ULe(share(&first.src)).rc(),
            _ => return None,
        };
        let ghost source = ts[addr as int].src;
        let ghost whole = match source {
            BytesTerm::Le { of, width: w } => *of,
            _ => NumTerm::ULe(Box::new(source)),
        };
        assert(full.term() == whole);
        assert(source is Le || source is Storage);
        // Bytes [start, start+width) = (full >> start*8) & (2^(width*8) - 1).
        let shifted: Rc<SymNum> = if start == 0 {
            full
        } else {
            let by = SymNum::Const(start as u128 * 8).rc();
            assert(by.term() == NumTerm::Const((start * 8) as u128));
            SymNum::Shr(full, by).rc()
        };
        assert(shifted.term() == if start == 0 {
            whole
        } else {
            term::op_term(NumOp::Shr, whole, NumTerm::Const((start * 8) as u128))
        });
        if more {
            let mask: u128 = if width == 1 {
                0xff
            } else if width == 2 {
                0xffff
            } else if width == 4 {
                0xffff_ffff
            } else {
                0xffff_ffff_ffff_ffff
            };
            let all = SymNum::Const(mask).rc();
            assert(all.term() == NumTerm::Const(mask));
            Some(SymNum::And(shifted, all).rc())
        } else {
            Some(shifted)
        }
    }

    /// Load `width` bytes at (addr + offset); recover a SymNum from provenance
    /// when the bytes are a clean run of one symbolic source.
    fn load(&self, vs: &mut Vec<Operand>, k: LoadOp, offset: u64) -> (r: Result<(), Fault>)
        ensures
            match machine::loaded(self.machine(), k, offset, value::vals(old(vs)@)) {
                Ok(out) => r is Ok && value::vals(final(vs)@) == out,
                Err(f) => r == Err::<(), Fault>(f),
            },
    {
        let (width, signed): (usize, bool) = match k {
            LoadOp::I32Load => (4, false),
            LoadOp::I32Load8U => (1, false),
            LoadOp::I32Load8S => (1, true),
            LoadOp::I32Load16U => (2, false),
            LoadOp::I32Load16S => (2, true),
            LoadOp::I64Load => (8, false),
            LoadOp::I64Load8U => (1, false),
            LoadOp::I64Load8S => (1, true),
            LoadOp::I64Load16U => (2, false),
            LoadOp::I64Load16S => (2, true),
            LoadOp::I64Load32U => (4, false),
            LoadOp::I64Load32S => (4, true),
        };
        let addr: u64 = match pop(vs) {
            Some(v) => v.c,
            None => return Err(Fault::Underflow),
        };
        let at: u128 = addr as u128 + offset as u128;
        if at + width as u128 > self.mem.len() as u128 {
            return Err(Fault::OutOfBounds);
        }
        let a: usize = at as usize;
        assert(a + width <= self.mem.len());
        let part = cut(self.mem.as_slice(), a, a + width);
        proof {
            bytes::lemma_pow256_16();
            bytes::lemma_le_num_bound(part@);
            bytes::lemma_pow256_mono(part@.len(), 8);
        }
        let mut c: u64 = decode_le(part.as_slice()) as u64;
        if signed {
            let shift: u64 = 64 - 8 * width as u64;
            c = (((c << shift) as i64) >> shift) as u64;
        }
        let s = self.recover_num(a, width);
        push(vs, Operand::num(c, s));
        Ok(())
    }

    /// Store: pop value, address; write `width` low bytes. If the value is
    /// symbolic, tag the stored bytes as its little-endian decomposition.
    fn store(&mut self, vs: &mut Vec<Operand>, k: StoreOp, offset: u64) -> (r: Result<(), Fault>)
        ensures
            ({
                let (st, out) = machine::stored(
                    old(self).machine(),
                    old(self).steps_taken(),
                    k,
                    offset,
                    value::vals(old(vs)@),
                );
                &&& final(self).machine() == st
                &&& match out {
                    Ok(out) => r is Ok && value::vals(final(vs)@) == out,
                    Err(f) => r == Err::<(), Fault>(f),
                }
            }),
            final(self).setup() == old(self).setup(),
            final(self).steps_taken() == old(self).steps_taken(),
    {
        let width: usize = match k {
            StoreOp::I32Store => 4,
            StoreOp::I32Store8 => 1,
            StoreOp::I32Store16 => 2,
            StoreOp::I64Store => 8,
            StoreOp::I64Store8 => 1,
            StoreOp::I64Store16 => 2,
            StoreOp::I64Store32 => 4,
        };
        let v = match pop(vs) {
            Some(v) => v,
            None => return Err(Fault::Underflow),
        };
        let addr: u64 = match pop(vs) {
            Some(v) => v.c,
            None => return Err(Fault::Underflow),
        };
        let at: u128 = addr as u128 + offset as u128;
        if at + width as u128 > self.mem.len() as u128 {
            return Err(Fault::OutOfBounds);
        }
        let a: usize = at as usize;
        assert(a + width <= self.mem.len());
        let data = encode_le(v.c as u128, width);
        proof {
            bytes::lemma_le_bytes_len(v.c as int, width as nat);
        }
        self.write_bytes(a, data.as_slice());
        if let Some(s) = v.s {
            let src = SymBytes::Le { of: s, width: width as u8 }.rc();
            let now: u64 = self.steps;
            self.tags.tag(a, width, &src, (now, 0));
        }
        Ok(())
    }

    fn exec_memory(&mut self, op: &Op, vs: &mut Vec<Operand>) -> (r: Result<(), Fault>)
        requires
            op is MemorySize || op is MemoryGrow || op is MemoryCopy || op is MemoryFill,
        ensures
            ({
                let (st, out) = machine::memory_flow(old(self).setup(), old(self).machine(), *op, value::vals(old(vs)@));
                &&& final(self).machine() == st
                &&& match out {
                    Ok(out) => r is Ok && value::vals(final(vs)@) == out,
                    Err(f) => r == Err::<(), Fault>(f),
                }
            }),
            final(self).setup() == old(self).setup(),
            final(self).steps_taken() == old(self).steps_taken(),
    {
        let ghost v0 = value::vals(vs@);
        match op {
            Op::MemorySize => {
                let pages: usize = self.mem.len() / PAGE;
                push(vs, Operand::con(pages as u64));
                Ok(())
            }
            Op::MemoryGrow => {
                let pages: u64 = match pop(vs) {
                    Some(v) => v.c,
                    None => return Err(Fault::Underflow),
                };
                let before: usize = self.mem.len() / PAGE;
                let limit: u32 = match self.m.mem_max_pages {
                    Some(max) => if max < MAX_PAGES { max } else { MAX_PAGES },
                    None => MAX_PAGES,
                };
                let size: u128 = self.mem.len() as u128 + pages as u128 * PAGE as u128;
                if before as u128 + pages as u128 > limit as u128 || size > usize::MAX as u128 {
                    push(vs, Operand::con(0xffff_ffff));
                    return Ok(());
                }
                let size: usize = size as usize;
                let ghost m0 = self.mem@;
                grow(&mut self.mem, size);
                assert(self.mem@ =~= m0 + module::zeros(size - m0.len()));
                push(vs, Operand::con(before as u64));
                Ok(())
            }
            Op::MemoryCopy => {
                let n: usize = match pop(vs) {
                    Some(v) => v.c as usize,
                    None => return Err(Fault::Underflow),
                };
                let src: usize = match pop(vs) {
                    Some(v) => v.c as usize,
                    None => return Err(Fault::Underflow),
                };
                let dst: usize = match pop(vs) {
                    Some(v) => v.c as usize,
                    None => return Err(Fault::Underflow),
                };
                assert(value::vals(vs@) =~= v0.take(v0.len() - 3));
                let total: usize = self.mem.len();
                if n > total || src > total - n || dst > total - n {
                    return Err(Fault::OutOfBounds);
                }
                let data = cut(self.mem.as_slice(), src, src + n);
                let ghost st = self.machine();
                // the provenance moves along with the bytes
                self.tags.carry(src, dst, n);
                self.set_bytes(dst, &data);
                Ok(())
            }
            _ => {
                let n: usize = match pop(vs) {
                    Some(v) => v.c as usize,
                    None => return Err(Fault::Underflow),
                };
                let v: u8 = match pop(vs) {
                    Some(v) => v.c as u8,
                    None => return Err(Fault::Underflow),
                };
                let dst: usize = match pop(vs) {
                    Some(v) => v.c as usize,
                    None => return Err(Fault::Underflow),
                };
                assert(value::vals(vs@) =~= v0.take(v0.len() - 3));
                let total: usize = self.mem.len();
                if n > total || dst > total - n {
                    return Err(Fault::OutOfBounds);
                }
                let data: Vec<u8> = vec![v; n];
                assert(data@ =~= Seq::new(n as nat, |i: int| v));
                self.write_bytes(dst, data.as_slice());
                Ok(())
            }
        }
    }

    fn set_bytes(&mut self, at: usize, data: &Vec<u8>)
        requires
            at + data@.len() <= old(self).machine().mem.len(),
        ensures
            final(self).machine() == (Machine {
                mem: machine::written(old(self).machine().mem, at as int, data@),
                ..old(self).machine()
            }),
            final(self).setup() == old(self).setup(),
            final(self).steps_taken() == old(self).steps_taken(),
    {
        let ghost before = self.mem@;
        let n: usize = data.len();
        assert(at + n <= self.mem.len());
        for i in 0..n
            invariant
                n == data@.len(),
                at + n <= before.len(),
                before.len() == self.mem@.len(),
                at + n <= usize::MAX,
                forall|j: int| 0 <= j < before.len() ==> #[trigger] self.mem@[j] == if at <= j < at + i {
                    data@[j - at]
                } else {
                    before[j]
                },
                self.machine() == (Machine { mem: self.mem@, ..old(self).machine() }),
                self.setup() == old(self).setup(),
                self.steps_taken() == old(self).steps_taken(),
        {
            self.mem.set(at + i, data[i]);
        }
        assert(self.mem@ =~= machine::written(before, at as int, data@));
    }

    /*──────────────────────── execution ────────────────────────*/

    fn exec_step(&mut self, body: &Vec<Op>, table: &BlockTable, n_results: usize, fr: &mut ExecFrame) -> (r: Result<
        Step,
        Fault,
    >)
        requires
            table.describes(body@),
            old(fr).pc < body@.len(),
        ensures
            ({
                let (st, flow) = machine::step(
                    old(self).setup(),
                    old(self).machine(),
                    old(self).steps_taken(),
                    body@,
                    n_results as int,
                    old(fr).frame(),
                );
                &&& final(self).machine() == st
                &&& agrees(r, *final(fr), flow)
            }),
            final(self).setup() == old(self).setup(),
            final(self).steps_taken() == old(self).steps_taken(),
    {
        assert(fr.pc < body.len());
        let op = &body[fr.pc];
        let moved = match op {
            Op::Unreachable | Op::Block(_) | Op::Loop(_) | Op::If(_) | Op::Else | Op::End | Op::Br(_) | Op::BrIf(_)
            | Op::BrTable(_, _) | Op::Return | Op::Call(_) | Op::CallIndirect(_) => {
                return self.exec_control(body, table, n_results, fr);
            }
            Op::Nop | Op::Drop | Op::Select | Op::LocalGet(_) | Op::LocalSet(_) | Op::LocalTee(_) | Op::GlobalGet(_)
            | Op::GlobalSet(_) | Op::I32Const(_) | Op::I64Const(_) => {
                return self.exec_data(op, fr);
            }
            Op::Load(k, offset) => self.load(&mut fr.stack, *k, *offset),
            Op::Store(k, offset) => self.store(&mut fr.stack, *k, *offset),
            Op::MemorySize | Op::MemoryGrow | Op::MemoryCopy | Op::MemoryFill => self.exec_memory(op, &mut fr.stack),
            _ => match exec_numeric(op, &mut fr.stack) {
                Ok(true) => Ok(()),
                Ok(false) => Err(Fault::Unsupported),
                Err(f) => Err(f),
            },
        };
        match moved {
            Ok(()) => {
                fr.pc = fr.pc + 1;
                Ok(Step::Next)
            }
            Err(f) => Err(f),
        }
    }

    fn exec_body(&mut self, body: &'a Vec<Op>, n_results: usize, locals: Vec<Operand>) -> (r: Result<Vec<Operand>, Fault>)
        ensures
            ({
                let o = machine::run(
                    old(self).setup(),
                    old(self).steps_taken(),
                    old(self).machine(),
                    body@,
                    n_results as int,
                    Frame {
                        locals: value::vals(locals@),
                        stack: Seq::empty(),
                        blocks: Seq::empty(),
                        pc: 0,
                    },
                );
                &&& final(self).machine() == o.machine
                &&& final(self).steps_taken() == o.steps
                &&& match (r, o.result) {
                    (Ok(v), Ok(w)) => value::vals(v@) == w,
                    (Err(x), Err(y)) => x == y,
                    _ => false,
                }
            }),
            final(self).setup() == old(self).setup(),
            final(self).steps_taken() >= old(self).steps_taken(),
        decreases machine::steps_left(old(self).setup(), old(self).steps_taken()),
    {
        let table = block_structure(body);
        let mut fr = ExecFrame { locals, stack: Vec::new(), blocks: Vec::new(), pc: 0 };
        let ghost cx = self.setup();
        let ghost o = machine::run(
            cx,
            self.steps_taken(),
            self.machine(),
            body@,
            n_results as int,
            Frame { locals: value::vals(locals@), stack: Seq::empty(), blocks: Seq::empty(), pc: 0 },
        );
        proof {
            assert(value::vals(fr.stack@) =~= Seq::empty());
            assert(fr.blocks@ =~= Seq::empty());
        }
        while fr.pc < body.len()
            invariant
                table.describes(body@),
                cx == old(self).setup(),
                self.setup() == cx,
                self.steps_taken() >= old(self).steps_taken(),
                o == machine::run(cx, self.steps_taken(), self.machine(), body@, n_results as int, fr.frame()),
                o == machine::run(
                    old(self).setup(),
                    old(self).steps_taken(),
                    old(self).machine(),
                    body@,
                    n_results as int,
                    Frame { locals: value::vals(locals@), stack: Seq::empty(), blocks: Seq::empty(), pc: 0 },
                ),
            decreases machine::steps_left(cx, self.steps_taken()),
        {
            if self.steps >= self.max_steps {
                return Err(Fault::Budget);
            }
            self.steps = self.steps + 1;
            match self.exec_step(body, &table, n_results, &mut fr) {
                Err(f) => return Err(f),
                Ok(Step::Return(out)) => return Ok(out),
                Ok(Step::Next) => {}
                Ok(Step::Call(f, args)) => match self.call(f, args) {
                    Err(f) => return Err(f),
                    Ok(out) => push_many(&mut fr.stack, out),
                },
            }
        }
        take_results(&mut fr, n_results)
    }

    fn call(&mut self, f: u32, args: Vec<Operand>) -> (r: Result<Vec<Operand>, Fault>)
        ensures
            ({
                let o = machine::call(
                    old(self).setup(),
                    old(self).steps_taken(),
                    old(self).machine(),
                    f,
                    value::vals(args@),
                );
                &&& final(self).machine() == o.machine
                &&& final(self).steps_taken() == o.steps
                &&& match (r, o.result) {
                    (Ok(v), Ok(w)) => value::vals(v@) == w,
                    (Err(x), Err(y)) => x == y,
                    _ => false,
                }
            }),
            final(self).setup() == old(self).setup(),
            final(self).steps_taken() >= old(self).steps_taken(),
        decreases machine::steps_left(old(self).setup(), old(self).steps_taken()),
    {
        if self.steps >= self.max_steps {
            return Err(Fault::Budget);
        }
        self.steps = self.steps + 1;
        let m = self.m;
        let at: usize = f as usize;
        let n = m.imports.len();
        if at < n {
            assert(m.model().imports[at as int] == m.imports@[at as int].model());
            return self.host_call(m.imports[at].name.as_str(), &args);
        }
        if at - n >= m.funcs.len() {
            return Err(Fault::Malformed);
        }
        let func = &m.funcs[at - n];
        assert(m.model().funcs[at - n] == func.model());
        // locals = params (from args) + declared locals (zero-initialized)
        let ghost given = value::vals(args@);
        let mut locals = args;
        let k = func.locals.len();
        assert(given + Seq::new(0, |i: int| machine::con(0)) =~= given);
        for i in 0..k
            invariant
                value::vals(locals@) == given + Seq::new(i as nat, |i: int| machine::con(0)),
        {
            push(&mut locals, Operand::con(0));
            assert(given + Seq::new((i + 1) as nat, |i: int| machine::con(0)) =~= (given + Seq::new(
                i as nat,
                |i: int| machine::con(0),
            )).push(machine::con(0)));
        }
        self.exec_body(&func.body, func.sig.results.len(), locals)
    }

    /// Runs the contract's `__execute` and recovers the symbolic data of its
    /// response.
    pub fn run_execute(&mut self) -> (r: LiftOutcome)
        ensures
            interp::outcome_agrees(
                r,
                machine::executed(old(self).setup(), old(self).steps_taken(), old(self).machine()),
            ),
            final(self).machine() == machine::executed(
                old(self).setup(),
                old(self).steps_taken(),
                old(self).machine(),
            ).0,
            final(self).setup() == old(self).setup(),
    {
        let idx: u32 = match self.m.export("__execute") {
            Some(idx) => idx,
            None => return LiftOutcome::Unsupported(Fault::CallTarget),
        };
        let none: Vec<Operand> = Vec::new();
        assert(value::vals(none@) =~= Seq::empty());
        match self.call(idx, none) {
            Ok(results) => {
                if let Some(d) = self.disq {
                    return LiftOutcome::Disqualified(d);
                }
                let ptr: u32 = if results.len() > 0 { results[0].c as u32 } else { 0 };
                assert(results@.len() > 0 ==> value::vals(results@)[0] == results@[0].val());
                match self.extract_response(ptr) {
                    Some(data) => LiftOutcome::Data(data),
                    None => LiftOutcome::Trap(Fault::Response),
                }
            }
            Err(f) => {
                if let Some(d) = self.disq {
                    LiftOutcome::Disqualified(d)
                } else if f == Fault::Unsupported {
                    LiftOutcome::Unsupported(f)
                } else {
                    LiftOutcome::Trap(f)
                }
            }
        }
    }
}

} // verus!
