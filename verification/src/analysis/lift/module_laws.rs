//! What a module that is read from its sections holds.
use vstd::prelude::*;
use wasmparser::ValType;
use crate::analysis::lift::module;
use crate::analysis::lift::module::{ImportModel, ModuleError, ModuleModel, PAGE};
use crate::analysis::lift::op::Op;

verus! {

/// Functions are counted from the imported ones on: those first, in order, and those of
/// the module behind.
pub proof fn lemma_functions(m: ModuleModel, i: u32)
    ensures
        i < m.imports.len() ==> module::sig_at(m, i) == Some(m.imports[i as int].sig),
        m.imports.len() <= i < m.imports.len() + m.funcs.len() ==> module::sig_at(m, i) == Some(m.funcs[i - m.imports.len()].sig),
        i >= m.imports.len() + m.funcs.len() ==> module::sig_at(m, i) is None,
{
}

/// An export is found under its name, the last of several; under no other name.
pub proof fn lemma_exports(exports: Seq<(Seq<char>, u32)>, name: Seq<char>, i: u32, other: Seq<char>)
    ensures
        module::export_index(exports.push((name, i)), name) == Some(i),
        other != name ==> module::export_index(exports.push((name, i)), other) == module::export_index(exports, other),
        module::export_index(seq![], name) is None,
{
    assert(exports.push((name, i)).drop_last() =~= exports);
}

/// What is laid over a sequence stands there, the rest stays, and a gap is filled.
pub proof fn lemma_overlay<T>(base: Seq<T>, at: int, over: Seq<T>, fill: T, i: int)
    requires
        0 <= at,
    ensures
        ({
            let r = module::overlay(base, at, over, fill);
            &&& r.len() >= base.len() && r.len() >= at + over.len()
            &&& r.len() == base.len() || r.len() == at + over.len()
            &&& r.subrange(at, at + over.len()) == over
            &&& 0 <= i < base.len() && !(at <= i < at + over.len()) ==> r[i] == base[i]
            &&& base.len() <= i < at ==> i < r.len() ==> r[i] == fill
        }),
{
    assert(module::overlay(base, at, over, fill).subrange(at, at + over.len()) =~= over);
}

/// An active data segment is laid over the memory at its offset; a passive one changes
/// nothing, and an offset that is no constant is an error.
pub proof fn lemma_data(d: ModuleModel, at: i32, data: Seq<u8>)
    requires
        at >= 0,
        at + data.len() <= usize::MAX,
    ensures
        module::with_data(d, None) == Ok::<ModuleModel, ModuleError>(d),
        module::with_data(d, Some((Some(Op::I32Const(at)), data))) matches Ok(m) && {
            &&& m.memory == module::overlay(d.memory, at as int, data, 0u8)
            &&& m.table == d.table && m.globals == d.globals && m.funcs == d.funcs
        },
        module::with_data(d, Some((Some(Op::Nop), data))) == Err::<ModuleModel, ModuleError>(ModuleError::ConstExpr),
        module::with_data(d, Some((None, data))) == Err::<ModuleModel, ModuleError>(ModuleError::Malformed),
{
    assert(at as i64 as usize == at);
}

/// An element segment is laid over the table at its offset, its entries function by
/// function; one of a table but the first changes nothing.
pub proof fn lemma_elements(d: ModuleModel, at: i32, t: u32, f: u32, entries: Seq<Option<Result<u32, Option<Op>>>>, i: int)
    requires
        at >= 0,
        at + entries.len() <= usize::MAX,
        forall|k: int| 0 <= k < entries.len() ==> entries[k] is Some,
    ensures
        module::with_element(d, None) == Ok::<ModuleModel, ModuleError>(d),
        t != 0 ==> module::with_element(d, Some((Some(t), Some(Op::I32Const(at)), entries))) == Ok::<ModuleModel, ModuleError>(d),
        module::with_element(d, Some((None, Some(Op::I32Const(at)), entries))) == module::with_element(
            d,
            Some((Some(0u32), Some(Op::I32Const(at)), entries)),
        ),
        module::with_element(d, Some((None, Some(Op::I32Const(at)), entries))) matches Ok(m) && {
            &&& m.memory == d.memory
            &&& m.table.len() >= at + entries.len()
            &&& 0 <= i < entries.len() ==> m.table[at + i] == module::element_target(entries[i]->Some_0)
            &&& 0 <= i < d.table.len() && !(at <= i < at + entries.len()) ==> m.table[i] == d.table[i]
        },
        f != u32::MAX ==> module::element_target(Ok(f)) == Some(f) && module::element_target(Err(Some(Op::RefFunc(f)))) == Some(f),
        module::element_target(Err(None)) is None,
{
    assert(at as i64 as usize == at);
}

/// An imported function is of the type that it names; an import of another kind adds
/// none, and a type that is not there is an error.
pub proof fn lemma_imports(d: ModuleModel, module: Seq<char>, name: Seq<char>, ty: u32)
    ensures
        module::with_import(d, None) == Ok::<ModuleModel, ModuleError>(d),
        ty < d.types.len() ==> (module::with_import(d, Some((module, name, ty))) matches Ok(m) && m.imports == d.imports.push(
            ImportModel { module, name, sig: d.types[ty as int] },
        ) && m.funcs == d.funcs && m.types == d.types),
        ty >= d.types.len() ==> module::with_import(d, Some((module, name, ty))) == Err::<ModuleModel, ModuleError>(ModuleError::ImportType),
{
}

proof fn lemma_locals(runs: Seq<Option<(u32, ValType)>>, n: u32, ty: ValType)
    ensures
        module::flat_locals(seq![]) == Some(Seq::<ValType>::empty()),
        module::flat_locals(runs) matches Some(all) ==> module::flat_locals(runs.push(Some((n, ty)))) == Some(
            all + Seq::new(n as nat, |i: int| ty),
        ),
        module::flat_locals(runs.push(None)) is None,
{
    assert(runs.push(Some((n, ty))).drop_last() =~= runs);
    assert(runs.push(None).drop_last() =~= runs);
}

/// A body is that of the next declared function: it has that function's type, the locals
/// of its runs one behind the other, and its operators in order.
pub proof fn lemma_code(d: ModuleModel, runs: Seq<Option<(u32, ValType)>>, ops: Seq<Option<Op>>, n: u32, ty: ValType, i: int)
    requires
        d.funcs.len() < d.func_types.len(),
        d.func_types[d.funcs.len() as int] < d.types.len(),
        module::flat_locals(runs) is Some,
        forall|k: int| 0 <= k < ops.len() ==> ops[k] is Some,
    ensures
        module::with_code(d, Some(runs), Some(ops)) matches Ok(m) && {
            &&& m.funcs.len() == d.funcs.len() + 1
            &&& m.funcs.last().sig == d.types[d.func_types[d.funcs.len() as int] as int]
            &&& m.funcs.last().locals == module::flat_locals(runs)->Some_0
            &&& m.funcs.last().body.len() == ops.len()
            &&& 0 <= i < ops.len() ==> m.funcs.last().body[i] == ops[i]->Some_0
            &&& m.funcs.drop_last() == d.funcs
        },
        module::flat_locals(runs.push(Some((n, ty)))) == Some(module::flat_locals(runs)->Some_0 + Seq::new(n as nat, |i: int| ty)),
        module::flat_locals(runs.push(None)) is None,
{
    lemma_locals(runs, n, ty);
    let m = module::with_code(d, Some(runs), Some(ops))->Ok_0;
    assert(m.funcs.drop_last() =~= d.funcs);
}

/// A memory begins with as many pages of zeros as it asks for at least; a module without
/// one gets a page.
pub proof fn lemma_memory(d: ModuleModel, pages: u32, max: Option<u64>, i: int)
    requires
        pages * PAGE <= usize::MAX,
    ensures
        module::with_memory(d, (pages as u64, max)) matches Ok(m) && {
            &&& m.memory.len() == pages * 65536
            &&& 0 <= i < m.memory.len() ==> m.memory[i] == 0
            &&& m.min_pages == pages
            &&& max is None ==> m.max_pages is None
            &&& (max matches Some(n) ==> n <= u32::MAX ==> m.max_pages == Some(n as u32))
        },
        d.memory.len() == 0 ==> module::finished(d).memory.len() == 65536,
        d.memory.len() > 0 ==> module::finished(d) == d,
        module::finished(d).funcs == d.funcs && module::finished(d).exports == d.exports && module::finished(d).imports == d.imports,
{
    assert(pages as u64 as u32 == pages);
}

/// A constant is the number of its first operator; a global counts as zero, and any other
/// operator is no constant.
pub proof fn lemma_constants(a: i32, b: i64, g: u32)
    ensures
        module::const_value(Some(Op::I32Const(a))) == Ok::<i64, ModuleError>(a as i64),
        module::const_value(Some(Op::I64Const(b))) == Ok::<i64, ModuleError>(b),
        module::const_value(Some(Op::GlobalGet(g))) == Ok::<i64, ModuleError>(0),
        module::const_value(Some(Op::Nop)) == Err::<i64, ModuleError>(ModuleError::ConstExpr),
        module::const_value(None) == Err::<i64, ModuleError>(ModuleError::Malformed),
{
}

} // verus!
