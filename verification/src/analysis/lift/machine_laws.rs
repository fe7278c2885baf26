//! What the memory, the host functions and the branches of the interpreter promise.
use vstd::prelude::*;
use crate::analysis::lift::machine;
use crate::analysis::lift::machine::{Ctrl, Datum, Executed, Fault, Flow, Frame, Machine, Setup};
use crate::analysis::lift::module;
use crate::analysis::lift::module::{ModuleModel, PAGE};
use crate::analysis::lift::op::{BlockShape, LoadOp, Op};
use crate::bytes;
use crate::plan::{BytesTerm, NumTerm};

verus! {

/* ─────────────── memory ─────────────── */

/// Whether bytes stand in memory at a place, and nothing else of it has changed.
pub open spec fn stands_at(before: Seq<u8>, after: Seq<u8>, at: int, data: Seq<u8>) -> bool {
    &&& after.len() == before.len()
    &&& after.subrange(at, at + data.len()) == data
    &&& forall|i: int| 0 <= i < before.len() && !(at <= i < at + data.len()) ==> after[i] == #[trigger] before[i]
}

proof fn lemma_stands(m: Seq<u8>, at: int, data: Seq<u8>)
    requires
        0 <= at,
        at + data.len() <= m.len(),
    ensures
        stands_at(m, machine::written(m, at, data), at, data),
{
    assert(machine::written(m, at, data).subrange(at, at + data.len()) =~= data);
}

proof fn lemma_signs(c: u64)
    by (bit_vector)
    ensures
        c < 0x80 ==> ((((c << 56u64) as i64) >> 56u64) as u64) as i64 == c,
        0x80 <= c <= 0xff ==> ((((c << 56u64) as i64) >> 56u64) as u64) as i64 == c - 0x100,
        c < 0x8000 ==> ((((c << 48u64) as i64) >> 48u64) as u64) as i64 == c,
        0x8000 <= c <= 0xffff ==> ((((c << 48u64) as i64) >> 48u64) as u64) as i64 == c - 0x1_0000,
        c < 0x8000_0000 ==> ((((c << 32u64) as i64) >> 32u64) as u64) as i64 == c,
        0x8000_0000 <= c <= 0xffff_ffff ==> ((((c << 32u64) as i64) >> 32u64) as u64) as i64 == c - 0x1_0000_0000,
{
}

/// A load reads the number in its bytes, little-endian, as an unsigned number or as a
/// signed one.
pub proof fn lemma_load(st: Machine, k: LoadOp, offset: u64, v: Datum)
    requires
        v.c + offset + machine::load_shape(k).0 <= st.mem.len(),
    ensures
        ({
            let (width, signed) = machine::load_shape(k);
            let at = v.c + offset;
            let n = bytes::le_num(st.mem.subrange(at, at + width));
            machine::loaded(st, k, offset, seq![v]) matches Ok(out) && out.len() == 1 && {
                &&& !signed ==> out[0].c == n
                &&& signed && 2 * n < bytes::pow256(width as nat) ==> out[0].c as i64 == n
                &&& signed && 2 * n >= bytes::pow256(width as nat) ==> out[0].c as i64 == n - bytes::pow256(width as nat)
            }
        }),
        machine::load_shape(LoadOp::I32Load) == (4int, false) && machine::load_shape(LoadOp::I64Load) == (8int, false),
        machine::load_shape(LoadOp::I32Load8U) == (1int, false) && machine::load_shape(LoadOp::I64Load8U) == (1int, false),
        machine::load_shape(LoadOp::I32Load8S) == (1int, true) && machine::load_shape(LoadOp::I64Load8S) == (1int, true),
        machine::load_shape(LoadOp::I32Load16U) == (2int, false) && machine::load_shape(LoadOp::I64Load16U) == (2int, false),
        machine::load_shape(LoadOp::I32Load16S) == (2int, true) && machine::load_shape(LoadOp::I64Load16S) == (2int, true),
        machine::load_shape(LoadOp::I64Load32U) == (4int, false) && machine::load_shape(LoadOp::I64Load32S) == (4int, true),
{
    let (width, signed) = machine::load_shape(k);
    let at = v.c + offset;
    let b = st.mem.subrange(at, at + width);
    let n = bytes::le_num(b);
    bytes::lemma_le_num_bound(b);
    bytes::lemma_pow256_16();
    reveal_with_fuel(bytes::pow256, 3);
    assert(bytes::pow256(1) == 0x100);
    assert(bytes::pow256(2) == 0x1_0000);
    lemma_signs(n as u64);
    let stack = seq![v];
    assert(stack.drop_last() =~= Seq::<Datum>::empty());
    assert(stack.last() == v);
}

/// A copy gives the target the bytes of the source, as they were before, also where the
/// two overlap; a fill gives it one byte throughout. Both leave the rest as it is, take
/// three values off the stack and fail outside the memory.
pub proof fn lemma_copy_fill(cx: Setup, st: Machine, dst: Datum, src: Datum, n: Datum)
    requires
        dst.c <= 0xffff_ffff,
        src.c <= 0xffff_ffff,
        n.c <= 0xffff_ffff,
    ensures
        dst.c + n.c <= st.mem.len() && src.c + n.c <= st.mem.len() ==> {
            let (after, r) = machine::memory_flow(cx, st, Op::MemoryCopy, seq![dst, src, n]);
            &&& r matches Ok(out) && out.len() == 0
            &&& stands_at(st.mem, after.mem, dst.c as int, st.mem.subrange(src.c as int, src.c + n.c))
        },
        dst.c + n.c > st.mem.len() || src.c + n.c > st.mem.len() ==> machine::memory_flow(cx, st, Op::MemoryCopy, seq![dst, src, n]) == (
            st,
            Err::<Seq<Datum>, Fault>(Fault::OutOfBounds),
        ),
        dst.c + n.c <= st.mem.len() && src.c <= 0xff ==> {
            let (after, r) = machine::memory_flow(cx, st, Op::MemoryFill, seq![dst, src, n]);
            &&& r matches Ok(out) && out.len() == 0
            &&& stands_at(st.mem, after.mem, dst.c as int, Seq::new(n.c as nat, |i: int| src.c as u8))
        },
        dst.c + n.c > st.mem.len() ==> machine::memory_flow(cx, st, Op::MemoryFill, seq![dst, src, n]) == (
            st,
            Err::<Seq<Datum>, Fault>(Fault::OutOfBounds),
        ),
{
    let vs = seq![dst, src, n];
    assert(vs.take(0) =~= Seq::<Datum>::empty());
    if dst.c + n.c <= st.mem.len() && src.c + n.c <= st.mem.len() {
        lemma_stands(st.mem, dst.c as int, st.mem.subrange(src.c as int, src.c + n.c));
    }
    if dst.c + n.c <= st.mem.len() {
        lemma_stands(st.mem, dst.c as int, Seq::new(n.c as nat, |i: int| src.c as u8));
    }
}

/// A memory grows by pages of zeros behind what it holds, and gives the number of pages
/// it had; where its limit does not allow that it stays as it is and gives -1.
pub proof fn lemma_grow(cx: Setup, st: Machine, n: Datum, i: int)
    requires
        st.mem.len() % PAGE as nat == 0,
        n.c <= 0xffff_ffff,
    ensures
        ({
            let (after, r) = machine::memory_flow(cx, st, Op::MemoryGrow, seq![n]);
            let pages = st.mem.len() / PAGE as nat;
            &&& r matches Ok(out) && out.len() == 1 && (out[0].c == pages as u64 || (after == st && out[0].c == 0xffff_ffff))
            &&& pages + n.c <= machine::page_limit(cx.module.max_pages) && st.mem.len() + n.c * PAGE <= usize::MAX ==> {
                &&& after.mem.len() == st.mem.len() + n.c * PAGE
                &&& 0 <= i < st.mem.len() ==> after.mem[i] == st.mem[i]
                &&& st.mem.len() <= i < after.mem.len() ==> after.mem[i] == 0
            }
            &&& pages + n.c > machine::page_limit(cx.module.max_pages) ==> after == st && r->Ok_0[0].c == 0xffff_ffff
        }),
        machine::memory_flow(cx, st, Op::MemorySize, seq![]) matches (after, r) && after == st && (r matches Ok(out) && out.len() == 1
            && out[0].c == (st.mem.len() / PAGE as nat) as u64),
{
    assert(seq![n].drop_last() =~= Seq::<Datum>::empty());
    assert(0 <= n.c * PAGE);
}

/* ─────────────── host functions ─────────────── */

proof fn lemma_host_names()
    ensures
        "__request_context"@.len() == 17 && "__request_context"@[10] == 'c',
        "__request_storage"@.len() == 17 && "__request_storage"@[10] == 's',
        "__load_context"@.len() == 14 && "__load_context"@[7] == 'c',
        "__load_storage"@.len() == 14 && "__load_storage"@[7] == 's',
        "__height"@.len() == 8,
        "__log"@.len() == 5 && "__log"@[0] == '_',
        "abort"@.len() == 5 && "abort"@[0] == 'a',
{
    reveal_strlit("__request_context");
    reveal_strlit("__request_storage");
    reveal_strlit("__load_context");
    reveal_strlit("__load_storage");
    reveal_strlit("__height");
    reveal_strlit("__log");
    reveal_strlit("abort");
}

/// A request for a key gives the length of what is stored there, and a load copies it to
/// the buffer, where its bytes are those of the stored value of the key that was
/// requested last. Both note the key.
pub proof fn lemma_storage_calls(cx: Setup, st: Machine, now: u64, ptr: Datum, out: Datum, i: int)
    requires
        ptr.c <= 0xffff_ffff,
        out.c <= 0xffff_ffff,
        i >= 0,
    ensures
        ({
            let key = machine::buffer(st.mem, ptr.c as u32);
            let value = (cx.storage)(key);
            let (asked, r) = machine::host_called(cx, st, now, "__request_storage"@, seq![ptr]);
            let (loaded, q) = machine::host_called(cx, st, now, "__load_storage"@, seq![ptr, out]);
            &&& r == Ok::<Seq<Datum>, Fault>(seq![machine::con(value.len() as u64)])
            &&& asked.mem == st.mem && asked.tags == st.tags && asked.asked == st.asked.push(key)
            &&& asked.pending == Some(machine::recovered_key(st, ptr.c as u32))
            &&& loaded.asked == st.asked.push(key)
            &&& out.c + value.len() <= st.mem.len() ==> {
                &&& q == r
                &&& stands_at(st.mem, loaded.mem, out.c as int, value)
                &&& i < value.len() && value.len() <= u32::MAX ==> loaded.tags.contains_key(out.c + i) && loaded.tags[out.c + i].index == i
                    && loaded.tags[out.c + i].src == BytesTerm::Storage(
                    Box::new(
                        match st.pending {
                            Some(k) => k,
                            None => machine::recovered_key(st, ptr.c as u32),
                        },
                    ),
                )
            }
            &&& out.c + value.len() > st.mem.len() ==> q == Err::<Seq<Datum>, Fault>(Fault::OutOfBounds)
        }),
{
    lemma_host_names();
    let key = machine::buffer(st.mem, ptr.c as u32);
    let value = (cx.storage)(key);
    assert(seq![ptr][0] == ptr && seq![ptr, out][0] == ptr && seq![ptr, out][1] == out);
    if out.c + value.len() <= st.mem.len() {
        lemma_stands(st.mem, out.c as int, value);
    }
}

/// The height is written in eight bytes that are those of the height; the context is
/// written as it is, and its bytes from the calldata on are those of the calldata.
pub proof fn lemma_world_calls(cx: Setup, st: Machine, now: u64, ptr: Datum, i: int)
    requires
        ptr.c <= 0xffff_ffff,
        cx.calldata_off <= 0xffff_ffff,
        0 <= i,
        cx.context.len() <= u32::MAX,
    ensures
        ({
            let (h, r) = machine::host_called(cx, st, now, "__height"@, seq![ptr]);
            let (c, q) = machine::host_called(cx, st, now, "__load_context"@, seq![ptr]);
            let off = cx.calldata_off as int;
            &&& ptr.c + 8 <= st.mem.len() ==> {
                &&& r matches Ok(out) && out.len() == 0
                &&& stands_at(st.mem, h.mem, ptr.c as int, bytes::le_bytes(cx.height as int, 8))
                &&& i < 8 ==> h.tags.contains_key(ptr.c + i) && h.tags[ptr.c + i].index == i && h.tags[ptr.c + i].src == BytesTerm::Le {
                    of: Box::new(NumTerm::Height),
                    width: 8,
                }
            }
            &&& ptr.c + 8 > st.mem.len() ==> r == Err::<Seq<Datum>, Fault>(Fault::OutOfBounds)
            &&& ptr.c + cx.context.len() <= st.mem.len() ==> {
                &&& q == Ok::<Seq<Datum>, Fault>(seq![machine::con(cx.context.len() as u64)])
                &&& stands_at(st.mem, c.mem, ptr.c as int, cx.context)
                &&& off + i < cx.context.len() ==> c.tags.contains_key(ptr.c + off + i) && c.tags[ptr.c + off + i].index == i && c.tags[ptr.c + off
                    + i].src == BytesTerm::Calldata { start: 0, len: None }
                &&& i < off && i < cx.context.len() ==> !c.tags.contains_key(ptr.c + i)
            }
            &&& ptr.c + cx.context.len() > st.mem.len() ==> q == Err::<Seq<Datum>, Fault>(Fault::OutOfBounds)
            &&& machine::host_called(cx, st, now, "__request_context"@, seq![ptr]) == (
                st,
                Ok::<Seq<Datum>, Fault>(seq![machine::con(cx.context.len() as u64)]),
            )
        }),
{
    lemma_host_names();
    bytes::lemma_le_bytes_len(cx.height as int, 8);
    assert(seq![ptr][0] == ptr);
    if ptr.c + 8 <= st.mem.len() {
        lemma_stands(st.mem, ptr.c as int, bytes::le_bytes(cx.height as int, 8));
    }
    if ptr.c + cx.context.len() <= st.mem.len() {
        lemma_stands(st.mem, ptr.c as int, cx.context);
    }
}

/// A log does nothing and an abort faults; any function but these, storage, context and
/// height disqualifies the view.
pub proof fn lemma_other_calls(cx: Setup, st: Machine, now: u64, name: Seq<char>, args: Seq<Datum>)
    ensures
        machine::host_called(cx, st, now, "__log"@, args) == (st, Ok::<Seq<Datum>, Fault>(Seq::empty())),
        machine::host_called(cx, st, now, "abort"@, args) == (st, Err::<Seq<Datum>, Fault>(Fault::Abort)),
        name != "__request_context"@ && name != "__load_context"@ && name != "__request_storage"@ && name != "__load_storage"@ && name
            != "__height"@ && name != "__log"@ && name != "abort"@ ==> {
            let (after, r) = machine::host_called(cx, st, now, name, args);
            &&& r == Err::<Seq<Datum>, Fault>(Fault::Disqualified)
            &&& after.disq is Some
            &&& after.mem == st.mem
        },
{
    lemma_host_names();
}

/* ─────────────── branches ─────────────── */

/// A branch keeps as many values as its block has results, on top of those that stood
/// below the block, and goes on behind the block, which it leaves; a branch to a loop goes
/// on at its start, inside it.
pub proof fn lemma_branched(fr: Frame, depth: int, f: Ctrl)
    requires
        0 <= depth < fr.blocks.len(),
        f == fr.blocks[fr.blocks.len() - 1 - depth],
        fr.stack.len() >= f.height + f.arity,
    ensures
        machine::branched(fr, depth) matches Some(next) && {
            &&& next.stack.len() == f.height + f.arity
            &&& next.stack.take(f.height as int) == fr.stack.take(f.height as int)
            &&& next.stack.skip(f.height as int) == fr.stack.skip(fr.stack.len() - f.arity)
            &&& next.pc == f.cont
            &&& next.locals == fr.locals
            &&& next.blocks.len() == fr.blocks.len() - depth - if f.is_loop { 0int } else { 1 }
            &&& next.blocks.is_prefix_of(fr.blocks)
        },
{
    let next = machine::branched(fr, depth)->Some_0;
    assert(next.stack.take(f.height as int) =~= fr.stack.take(f.height as int));
    assert(next.stack.skip(f.height as int) =~= fr.stack.skip(fr.stack.len() - f.arity));
}

/// A branch out of all blocks returns, one beyond them is malformed.
pub proof fn lemma_branch_out(fr: Frame, depth: int, n: int)
    requires
        0 <= n <= fr.stack.len(),
    ensures
        depth == fr.blocks.len() ==> machine::branch_flow(fr, depth, n) == Ok::<machine::Flow, Fault>(
            machine::Flow::Return(fr.stack.skip(fr.stack.len() - n)),
        ),
        depth > fr.blocks.len() ==> machine::branch_flow(fr, depth, n) == Err::<machine::Flow, Fault>(Fault::Malformed),
{
}

/* ─────────────── runs ─────────────── */

/// A run starts with the module's memory, filled up with zeros to the pages it asks for
/// at least, its globals at their first values, and nothing tagged, asked or decided.
pub proof fn lemma_started(m: ModuleModel, i: int)
    ensures
        ({
            let st = machine::started(m);
            &&& st.mem.len() >= m.memory.len() && st.mem.len() >= m.min_pages * PAGE
            &&& 0 <= i < m.memory.len() ==> st.mem[i] == m.memory[i]
            &&& m.memory.len() <= i < st.mem.len() ==> st.mem[i] == 0
            &&& st.globals.len() == m.globals.len()
            &&& 0 <= i < m.globals.len() ==> st.globals[i] == m.globals[i].init
            &&& !st.tags.contains_key(i)
            &&& st.path.len() == 0 && st.asked.len() == 0 && st.disq is None && st.pending is None
        }),
{
}

/// A call of an import is a call of the host function of its name, one of a function runs
/// its body from the start with the arguments and a zero for each local. One beyond them is
/// malformed, and one without a step left runs out.
pub proof fn lemma_call(cx: Setup, steps: u64, st: Machine, f: u32, args: Seq<Datum>)
    ensures
        steps >= cx.max_steps ==> machine::call(cx, steps, st, f, args).result == Err::<Seq<Datum>, Fault>(Fault::Budget)
            && machine::call(cx, steps, st, f, args).machine == st,
        steps < cx.max_steps && f < cx.module.imports.len() ==> {
            let (after, r) = machine::host_called(cx, st, (steps + 1) as u64, cx.module.imports[f as int].name, args);
            &&& machine::call(cx, steps, st, f, args).result == r
            &&& machine::call(cx, steps, st, f, args).machine == after
        },
        steps < cx.max_steps && cx.module.imports.len() <= f < cx.module.imports.len() + cx.module.funcs.len() ==> {
            let func = cx.module.funcs[f - cx.module.imports.len()];
            let zeros = Seq::new(func.locals.len(), |i: int| Datum { c: 0, s: None, b: None });
            machine::call(cx, steps, st, f, args) == machine::run(
                cx,
                (steps + 1) as u64,
                st,
                func.body,
                func.sig.results.len() as int,
                Frame { locals: args + zeros, stack: seq![], blocks: seq![], pc: 0 },
            )
        },
        steps < cx.max_steps && f >= cx.module.imports.len() + cx.module.funcs.len() ==> machine::call(cx, steps, st, f, args).result == Err::<
            Seq<Datum>,
            Fault,
        >(Fault::Malformed),
{
    reveal_with_fuel(machine::call, 2);
    if cx.module.imports.len() <= f < cx.module.imports.len() + cx.module.funcs.len() {
        let func = cx.module.funcs[f - cx.module.imports.len()];
        assert(Seq::new(func.locals.len(), |i: int| machine::con(0)) =~= Seq::new(
            func.locals.len(),
            |i: int| Datum { c: 0, s: None, b: None },
        ));
    }
}

/// A run of `__execute` that used what a plan cannot model is disqualified, whatever else
/// came of it; one that returns gives the data of its response, or traps without one; and
/// any other fault is a trap, but for what is not supported.
pub proof fn lemma_executed(cx: Setup, steps: u64, st: Machine, f: u32)
    requires
        module::export_index(cx.module.exports, "__execute"@) == Some(f),
    ensures
        ({
            let o = machine::call(cx, steps, st, f, seq![]);
            let (after, r) = machine::executed(cx, steps, st);
            &&& after == o.machine
            &&& (o.machine.disq matches Some(d) ==> r == Executed::Disqualified(d))
            &&& o.machine.disq is None ==> (match o.result {
                Ok(out) => match machine::response_term(o.machine, if out.len() == 0 { 0 } else { out[0].c as u32 }) {
                    Some(t) => r == Executed::Data(t),
                    None => r == Executed::Trap(Fault::Response),
                },
                Err(Fault::Unsupported) => r == Executed::Unsupported(Fault::Unsupported),
                Err(e) => r == Executed::Trap(e),
            })
        }),
{
}

/// A module without `__execute` is not supported.
pub proof fn lemma_not_executed(cx: Setup, steps: u64, st: Machine)
    requires
        module::export_index(cx.module.exports, "__execute"@) is None,
    ensures
        machine::executed(cx, steps, st).1 == Executed::Unsupported(Fault::CallTarget),
        machine::executed(cx, steps, st).0 == st,
{
}

/// A step that only changes the stack goes on with the next operator; a fault ends the
/// run, and so do the end of the body, a return and the last step that was allowed.
pub proof fn lemma_run(cx: Setup, steps: u64, st: Machine, body: Seq<Op>, n: int, fr: Frame)
    ensures
        fr.pc >= body.len() ==> machine::run(cx, steps, st, body, n, fr).result == machine::results(fr.stack, n),
        0 <= fr.pc < body.len() && steps >= cx.max_steps ==> machine::run(cx, steps, st, body, n, fr).result == Err::<Seq<Datum>, Fault>(
            Fault::Budget,
        ),
        0 <= fr.pc < body.len() && steps < cx.max_steps ==> {
            let (after, flow) = machine::step(cx, st, (steps + 1) as u64, body, n, fr);
            &&& (flow matches Err(f) ==> machine::run(cx, steps, st, body, n, fr).result == Err::<Seq<Datum>, Fault>(f))
            &&& (flow matches Ok(Flow::Return(out)) ==> machine::run(cx, steps, st, body, n, fr).result == Ok::<Seq<Datum>, Fault>(out))
            &&& (flow matches Ok(Flow::Next(next)) ==> machine::run(cx, steps, st, body, n, fr) == machine::run(
                cx,
                (steps + 1) as u64,
                after,
                body,
                n,
                next,
            ))
        },
{
    reveal_with_fuel(machine::run, 2);
}

/// Variables and constants: a local that was set is what is read next, `tee` leaves the
/// value on the stack, and a constant is its bits.
pub proof fn lemma_data(st: Machine, fr: Frame, i: u32, v: Datum, a: i32, b: i64)
    requires
        i < fr.locals.len(),
        fr.stack.len() > 0,
        fr.stack.last() == v,
    ensures
        machine::data_flow(st, Op::LocalSet(i), fr).1 matches Ok(Flow::Next(next)) && next.pc == fr.pc + 1 && next.stack == fr.stack.drop_last()
            && next.locals == fr.locals.update(i as int, v) && (machine::data_flow(st, Op::LocalGet(i), next).1 matches Ok(Flow::Next(read))
            && read.stack == fr.stack && read.locals == next.locals),
        machine::data_flow(st, Op::LocalTee(i), fr).1 matches Ok(Flow::Next(next)) && next.stack == fr.stack && next.locals == fr.locals.update(
            i as int,
            v,
        ),
        machine::data_flow(st, Op::Drop, fr).1 matches Ok(Flow::Next(next)) && next.stack == fr.stack.drop_last(),
        machine::data_flow(st, Op::I32Const(a), fr).1 matches Ok(Flow::Next(next)) && next.stack.len() == fr.stack.len() + 1
            && next.stack.last() == (Datum { c: (a as u32) as u64, s: None, b: None }),
        machine::data_flow(st, Op::I64Const(b), fr).1 matches Ok(Flow::Next(next)) && next.stack.len() == fr.stack.len() + 1
            && next.stack.last() == (Datum { c: b as u64, s: None, b: None }),
        machine::data_flow(st, Op::Nop, fr).1 matches Ok(Flow::Next(next)) && next.stack == fr.stack && next.pc == fr.pc + 1,
{
    assert(fr.stack.drop_last().push(v) =~= fr.stack);
}

/// A global that was set is what is read next, and no other changes.
pub proof fn lemma_globals(st: Machine, fr: Frame, i: u32, j: u32, v: Datum)
    requires
        i < st.globals.len(),
        j < st.globals.len(),
        fr.stack.len() > 0,
        fr.stack.last() == v,
    ensures
        ({
            let (after, r) = machine::data_flow(st, Op::GlobalSet(i), fr);
            &&& (r matches Ok(Flow::Next(next)) && next.stack == fr.stack.drop_last())
            &&& after.globals.len() == st.globals.len()
            &&& after.globals[i as int] == v.c as i64
            &&& j != i ==> after.globals[j as int] == st.globals[j as int]
        }),
        machine::data_flow(st, Op::GlobalGet(j), fr).1 matches Ok(Flow::Next(next)) && next.stack.last().c == st.globals[j as int] as u64
            && next.stack.len() == fr.stack.len() + 1,
{
}

/// A table of branches goes to the target of its index, and to the default beyond the last.
pub proof fn lemma_branch_table(cx: Setup, st: Machine, body: Seq<Op>, n: int, fr: Frame, targets: Vec<Option<u32>>, default: u32, i: u32)
    requires
        0 <= fr.pc < body.len(),
        body[fr.pc] == Op::BrTable(targets, default),
        fr.stack.len() > 0,
        fr.stack.last().c == i,
    ensures
        ({
            let rest = Frame { stack: fr.stack.drop_last(), ..fr };
            let flow = machine::control_flow(cx, st, body, n, fr).1;
            &&& i < targets@.len() ==> (targets@[i as int] matches Some(d) ==> flow == machine::branch_flow(rest, d as int, n))
            &&& i >= targets@.len() ==> flow == machine::branch_flow(rest, default as int, n)
        }),
{
}

/// A condition that holds leads into the first branch; one that does not leads behind the
/// `else`, and behind the whole where there is none.
pub proof fn lemma_if(cx: Setup, st: Machine, body: Seq<Op>, n: int, fr: Frame, shape: BlockShape, end: usize)
    requires
        0 <= fr.pc < body.len(),
        body[fr.pc] == Op::If(shape),
        machine::block_inputs(cx.module, shape) == 0,
        fr.stack.len() > 0,
        machine::condition(fr.stack.last()) is None,
        machine::structure(body, body.len() as int).ends.contains_key(fr.pc),
        machine::structure(body, body.len() as int).ends[fr.pc] == end,
    ensures
        ({
            let s = machine::structure(body, body.len() as int);
            machine::control_flow(cx, st, body, n, fr).1 matches Ok(Flow::Next(next)) && {
                &&& next.stack == fr.stack.drop_last()
                &&& machine::holds(fr.stack.last()) ==> next.pc == fr.pc + 1 && next.blocks.len() == fr.blocks.len() + 1
                &&& !machine::holds(fr.stack.last()) && s.elses.contains_key(fr.pc) ==> next.pc == s.elses[fr.pc] + 1 && next.blocks.len()
                    == fr.blocks.len() + 1
                &&& !machine::holds(fr.stack.last()) && !s.elses.contains_key(fr.pc) ==> next.pc == end + 1 && next.blocks == fr.blocks
            }
        }),
{
}

} // verus!
