//! Minimal WASM module representation for the concolic lifter: enough to
//! interpret an alkanes contract's `__execute`. Function bodies as operator
//! vectors, types, initialized linear memory, globals, imports/exports, and
//! the table (for `call_indirect`).
use vstd::prelude::*;
use wasmparser::{Operator, ValType};
use crate::analysis::lift::op::{read_op, Op};
use crate::analysis::lift::sections;
use crate::analysis::lift::sections::PayloadSort;
use crate::bytes::copy_bytes;
use crate::text::same_text;

verus! {

/// Bytes in a page of linear memory.
pub const PAGE: usize = 65536;

/// Why a binary is no module that the lifter can hold.
#[derive(Debug, Clone, Copy, PartialEq, Eq, Structural)]
pub enum ModuleError {
    /// A part of the binary cannot be decoded.
    Malformed,
    /// An import's type index is out of range.
    ImportType,
    /// A body has no declared function.
    CodeTypeMissing,
    /// A body's type index is out of range.
    CodeType,
    /// A constant expression is not an integer.
    ConstExpr,
    /// A segment or a memory ends beyond the address space.
    Size,
}

/// The parameters and results of a function.
#[derive(Debug)]
pub struct FuncSig {
    pub params: Vec<ValType>,
    pub results: Vec<ValType>,
}

/// A function that the module defines.
#[derive(Debug, Clone)]
pub struct Function {
    pub sig: FuncSig,
    /// Local declarations (already flattened): types of locals after params.
    pub locals: Vec<ValType>,
    /// The function body as a flat operator vector.
    pub body: Vec<Op>,
}

/// A function that the module imports.
#[derive(Debug, Clone)]
pub struct ImportedFunc {
    pub module: String,
    pub name: String,
    pub sig: FuncSig,
}

/// A global with its initial value.
#[derive(Debug, Clone, Copy)]
pub struct GlobalDef {
    pub ty: ValType,
    pub mutable: bool,
    pub init: i64,
}

#[derive(Debug)]
pub struct WasmModule {
    pub types: Vec<FuncSig>,
    /// Imported functions come first in the function index space.
    pub imports: Vec<ImportedFunc>,
    /// Local (defined) functions, indexed after imports.
    pub funcs: Vec<Function>,
    pub globals: Vec<GlobalDef>,
    /// Initial linear memory (min pages worth) with data segments applied.
    pub memory: Vec<u8>,
    pub mem_min_pages: u32,
    pub mem_max_pages: Option<u32>,
    /// Table of function indices for call_indirect (funcref table 0).
    pub table: Vec<Option<u32>>,
    /// Exported functions by name; of two of one name, the last counts.
    pub exports: Vec<(String, u32)>,
}

/*──────────────────────── models ────────────────────────*/

/// What a [`FuncSig`] is.
pub struct SigModel {
    pub params: Seq<ValType>,
    pub results: Seq<ValType>,
}

/// What a [`Function`] is.
pub struct FuncModel {
    pub sig: SigModel,
    pub locals: Seq<ValType>,
    pub body: Seq<Op>,
}

/// What an [`ImportedFunc`] is.
pub struct ImportModel {
    pub module: Seq<char>,
    pub name: Seq<char>,
    pub sig: SigModel,
}

/// What a [`WasmModule`] is, together with the function types declared so far.
pub struct ModuleModel {
    pub types: Seq<SigModel>,
    pub imports: Seq<ImportModel>,
    pub func_types: Seq<u32>,
    pub funcs: Seq<FuncModel>,
    pub globals: Seq<GlobalDef>,
    pub memory: Seq<u8>,
    pub min_pages: u32,
    pub max_pages: Option<u32>,
    pub table: Seq<Option<u32>>,
    pub exports: Seq<(Seq<char>, u32)>,
}

impl FuncSig {
    pub open spec fn model(self) -> SigModel {
        SigModel { params: self.params@, results: self.results@ }
    }

    fn copy(&self) -> (r: FuncSig)
        ensures
            r.model() == self.model(),
    {
        FuncSig { params: copy_types(&self.params), results: copy_types(&self.results) }
    }

    /// Whether two signatures are one.
    pub fn same(&self, other: &FuncSig) -> (r: bool)
        ensures
            r == (self.model() == other.model()),
    {
        same_types(&self.params, &other.params) && same_types(&self.results, &other.results)
    }
}

impl Clone for FuncSig {
    fn clone(&self) -> (r: Self)
        ensures
            r.model() == self.model(),
    {
        self.copy()
    }
}

/// Compares two value types with `==` of `wasmparser::ValType`, which is derived from
/// their variants and fields: it tells whether they are the same value.
#[verifier::external_body]
fn same_type(a: ValType, b: ValType) -> (r: bool)
    ensures
        r == (a == b),
{
    a == b
}

fn same_types(a: &Vec<ValType>, b: &Vec<ValType>) -> (r: bool)
    ensures
        r == (a@ == b@),
{
    let n: usize = a.len();
    if n != b.len() {
        return false;
    }
    for i in 0..n
        invariant
            n == a@.len() == b@.len(),
            forall|j: int| 0 <= j < i ==> a@[j] == b@[j],
    {
        if !same_type(a[i], b[i]) {
            return false;
        }
    }
    assert(a@ =~= b@);
    true
}

fn copy_types(types: &Vec<ValType>) -> (r: Vec<ValType>)
    ensures
        r@ == types@,
{
    let mut out: Vec<ValType> = Vec::new();
    for i in 0..types.len()
        invariant
            out@ == types@.take(i as int),
    {
        out.push(types[i]);
        assert(out@ =~= types@.take(i + 1));
    }
    assert(out@ =~= types@);
    out
}

impl Function {
    pub open spec fn model(self) -> FuncModel {
        FuncModel { sig: self.sig.model(), locals: self.locals@, body: self.body@ }
    }
}

impl ImportedFunc {
    pub open spec fn model(self) -> ImportModel {
        ImportModel { module: self.module@, name: self.name@, sig: self.sig.model() }
    }
}

pub open spec fn sig_models(s: Seq<FuncSig>) -> Seq<SigModel> {
    Seq::new(s.len(), |i: int| s[i].model())
}

pub open spec fn import_models(s: Seq<ImportedFunc>) -> Seq<ImportModel> {
    Seq::new(s.len(), |i: int| s[i].model())
}

pub open spec fn func_models(s: Seq<Function>) -> Seq<FuncModel> {
    Seq::new(s.len(), |i: int| s[i].model())
}

pub open spec fn export_models(s: Seq<(String, u32)>) -> Seq<(Seq<char>, u32)> {
    Seq::new(s.len(), |i: int| (s[i].0@, s[i].1))
}

/// The index under the last export of that name.
pub open spec fn export_index(exports: Seq<(Seq<char>, u32)>, name: Seq<char>) -> Option<u32>
    decreases exports.len(),
{
    if exports.len() == 0 {
        None
    } else if exports.last().0 == name {
        Some(exports.last().1)
    } else {
        export_index(exports.drop_last(), name)
    }
}

/// The signature of a function by its index, imports first.
pub open spec fn sig_at(m: ModuleModel, idx: u32) -> Option<SigModel> {
    if idx < m.imports.len() {
        Some(m.imports[idx as int].sig)
    } else if idx - m.imports.len() < m.funcs.len() {
        Some(m.funcs[idx - m.imports.len()].sig)
    } else {
        None
    }
}

/*──────────────────────── what the sections say ────────────────────────*/

/// Goes through items in order; the first that cannot be decoded or used stops.
pub open spec fn fold_items<T>(
    d: ModuleModel,
    items: Seq<Option<T>>,
    step: spec_fn(ModuleModel, T) -> Result<ModuleModel, ModuleError>,
) -> Result<ModuleModel, ModuleError>
    decreases items.len(),
{
    if items.len() == 0 {
        Ok(d)
    } else {
        match fold_items(d, items.drop_last(), step) {
            Err(x) => Err(x),
            Ok(d) => match items.last() {
                None => Err(ModuleError::Malformed),
                Some(item) => step(d, item),
            },
        }
    }
}

proof fn lemma_fold_stopped<T>(
    d: ModuleModel,
    items: Seq<Option<T>>,
    step: spec_fn(ModuleModel, T) -> Result<ModuleModel, ModuleError>,
    k: int,
)
    requires
        0 <= k <= items.len(),
        fold_items(d, items.take(k), step) is Err,
    ensures
        fold_items(d, items, step) == fold_items(d, items.take(k), step),
    decreases items.len() - k,
{
    if k < items.len() {
        assert(items.take(k + 1).drop_last() =~= items.take(k));
        lemma_fold_stopped(d, items, step, k + 1);
    } else {
        assert(items.take(k) =~= items);
    }
}

proof fn lemma_fold_step<T>(
    d: ModuleModel,
    items: Seq<Option<T>>,
    step: spec_fn(ModuleModel, T) -> Result<ModuleModel, ModuleError>,
    k: int,
)
    requires
        0 <= k < items.len(),
    ensures
        fold_items(d, items.take(k + 1), step) == (match fold_items(d, items.take(k), step) {
            Err(x) => Err(x),
            Ok(e) => match items[k] {
                None => Err(ModuleError::Malformed),
                Some(item) => step(e, item),
            },
        }),
{
    assert(items.take(k + 1).drop_last() =~= items.take(k));
    assert(items.take(k + 1).last() == items[k]);
}

pub open spec fn with_types(
    d: ModuleModel,
    group: Seq<(Seq<ValType>, Seq<ValType>)>,
) -> Result<ModuleModel, ModuleError> {
    Ok(
        ModuleModel {
            types: d.types + Seq::new(group.len(), |i: int| SigModel { params: group[i].0, results: group[i].1 }),
            ..d
        },
    )
}

pub open spec fn with_import(d: ModuleModel, item: Option<(Seq<char>, Seq<char>, u32)>) -> Result<ModuleModel, ModuleError> {
    match item {
        None => Ok(d),
        Some((module, name, ty)) => if ty < d.types.len() {
            Ok(
                ModuleModel {
                    imports: d.imports.push(
                        ImportModel { module, name, sig: d.types[ty as int] },
                    ),
                    ..d
                },
            )
        } else {
            Err(ModuleError::ImportType)
        },
    }
}

pub open spec fn with_function(d: ModuleModel, ty: u32) -> Result<ModuleModel, ModuleError> {
    Ok(ModuleModel { func_types: d.func_types.push(ty), ..d })
}

pub open spec fn with_table(d: ModuleModel, size: u64) -> Result<ModuleModel, ModuleError> {
    Ok(ModuleModel { table: Seq::new(size as usize as nat, |i: int| None::<u32>), ..d })
}

pub open spec fn zeros(n: int) -> Seq<u8> {
    Seq::new(n as nat, |i: int| 0u8)
}

pub open spec fn with_memory(d: ModuleModel, limits: (u64, Option<u64>)) -> Result<ModuleModel, ModuleError> {
    let pages = limits.0 as u32;
    if pages * PAGE > usize::MAX {
        Err(ModuleError::Size)
    } else {
        Ok(
            ModuleModel {
                memory: zeros(pages * PAGE),
                min_pages: pages,
                max_pages: match limits.1 {
                    Some(max) => Some(max as u32),
                    None => None,
                },
                ..d
            },
        )
    }
}

/// The integer that a constant expression gives by its first operator. An imported
/// global's value counts as 0.
pub open spec fn const_value(o: Option<Op>) -> Result<i64, ModuleError> {
    match o {
        None => Err(ModuleError::Malformed),
        Some(Op::I32Const(v)) => Ok(v as i64),
        Some(Op::I64Const(v)) => Ok(v),
        Some(Op::GlobalGet(_)) => Ok(0),
        Some(_) => Err(ModuleError::ConstExpr),
    }
}

pub open spec fn with_global(d: ModuleModel, g: (ValType, bool, Option<Op>)) -> Result<ModuleModel, ModuleError> {
    match const_value(g.2) {
        Err(x) => Err(x),
        Ok(init) => Ok(
            ModuleModel { globals: d.globals.push(GlobalDef { ty: g.0, mutable: g.1, init }), ..d },
        ),
    }
}

pub open spec fn with_export(d: ModuleModel, item: Option<(Seq<char>, u32)>) -> Result<ModuleModel, ModuleError> {
    match item {
        None => Ok(d),
        Some((name, idx)) => Ok(ModuleModel { exports: d.exports.push((name, idx)), ..d }),
    }
}

/// `over` laid over `base` from `at` on; a gap is filled with `fill`.
pub open spec fn overlay<T>(base: Seq<T>, at: int, over: Seq<T>, fill: T) -> Seq<T> {
    Seq::new(
        if at + over.len() > base.len() { (at + over.len()) as nat } else { base.len() },
        |i: int| if at <= i < at + over.len() {
            over[i - at]
        } else if i < base.len() {
            base[i]
        } else {
            fill
        },
    )
}

/// The function that an entry of an element segment stands for; `None` for a null
/// entry. The index 2^32 - 1 counts as null.
pub open spec fn element_target(e: Result<u32, Option<Op>>) -> Option<u32> {
    match e {
        Ok(f) => if f == u32::MAX { None } else { Some(f) },
        Err(Some(Op::RefFunc(f))) => if f == u32::MAX { None } else { Some(f) },
        Err(_) => None,
    }
}

/// The functions of an element segment, if every entry can be decoded.
pub open spec fn element_targets(entries: Seq<Option<Result<u32, Option<Op>>>>) -> Option<Seq<Option<u32>>> {
    if forall|i: int| 0 <= i < entries.len() ==> entries[i] is Some {
        Some(Seq::new(entries.len(), |i: int| element_target(entries[i]->0)))
    } else {
        None
    }
}

pub open spec fn with_element(
    d: ModuleModel,
    item: Option<(Option<u32>, Option<Op>, Seq<Option<Result<u32, Option<Op>>>>)>,
) -> Result<ModuleModel, ModuleError> {
    match item {
        None => Ok(d),
        Some((table, offset, entries)) => if table matches Some(t) && t != 0 {
            Ok(d)
        } else {
            match const_value(offset) {
                Err(x) => Err(x),
                Ok(base) => match element_targets(entries) {
                    None => Err(ModuleError::Malformed),
                    Some(targets) => if base as usize + targets.len() > usize::MAX {
                        Err(ModuleError::Size)
                    } else {
                        Ok(ModuleModel { table: overlay(d.table, base as usize as int, targets, None), ..d })
                    },
                },
            }
        },
    }
}

pub open spec fn with_data(d: ModuleModel, item: Option<(Option<Op>, Seq<u8>)>) -> Result<ModuleModel, ModuleError> {
    match item {
        None => Ok(d),
        Some((offset, bytes)) => match const_value(offset) {
            Err(x) => Err(x),
            Ok(base) => if base as usize + bytes.len() > usize::MAX {
                Err(ModuleError::Size)
            } else {
                Ok(ModuleModel { memory: overlay(d.memory, base as usize as int, bytes, 0), ..d })
            },
        },
    }
}

/// Runs of locals of one type, written out.
pub open spec fn flat_locals(runs: Seq<Option<(u32, ValType)>>) -> Option<Seq<ValType>>
    decreases runs.len(),
{
    if runs.len() == 0 {
        Some(Seq::empty())
    } else {
        match (flat_locals(runs.drop_last()), runs.last()) {
            (Some(s), Some((n, ty))) => Some(s + Seq::new(n as nat, |i: int| ty)),
            _ => None,
        }
    }
}

/// The operators, if every one can be decoded.
pub open spec fn all_ops(ops: Seq<Option<Op>>) -> Option<Seq<Op>> {
    if forall|i: int| 0 <= i < ops.len() ==> ops[i] is Some {
        Some(Seq::new(ops.len(), |i: int| ops[i]->0))
    } else {
        None
    }
}

pub open spec fn with_code(
    d: ModuleModel,
    locals: Option<Seq<Option<(u32, ValType)>>>,
    ops: Option<Seq<Option<Op>>>,
) -> Result<ModuleModel, ModuleError> {
    let idx = d.funcs.len() as int;
    if idx >= d.func_types.len() {
        Err(ModuleError::CodeTypeMissing)
    } else if d.func_types[idx] >= d.types.len() {
        Err(ModuleError::CodeType)
    } else {
        match (locals, ops) {
            (Some(runs), Some(ops)) => match (flat_locals(runs), all_ops(ops)) {
                (Some(locals), Some(body)) => Ok(
                    ModuleModel {
                        funcs: d.funcs.push(FuncModel { sig: d.types[d.func_types[idx] as int], locals, body }),
                        ..d
                    },
                ),
                _ => Err(ModuleError::Malformed),
            },
            _ => Err(ModuleError::Malformed),
        }
    }
}

/// What payload `at` of a binary adds.
pub open spec fn with_payload(
    d: ModuleModel,
    wasm: Seq<u8>,
    at: nat,
    sort: Option<PayloadSort>,
) -> Result<ModuleModel, ModuleError> {
    match sort {
        None => Err(ModuleError::Malformed),
        Some(PayloadSort::Nested) => Err(ModuleError::Malformed),
        Some(PayloadSort::Other) => match sections::code_locals(wasm, at) {
            None => Ok(d),
            Some(locals) => with_code(d, locals, sections::code_ops(wasm, at)),
        },
        Some(PayloadSort::Section(id)) => if id == 1 {
            fold_items(d, sections::type_groups(wasm, at), |d: ModuleModel, x| with_types(d, x))
        } else if id == 2 {
            fold_items(d, sections::import_items(wasm, at), |d: ModuleModel, x| with_import(d, x))
        } else if id == 3 {
            fold_items(d, sections::function_items(wasm, at), |d: ModuleModel, x| with_function(d, x))
        } else if id == 4 {
            fold_items(d, sections::table_items(wasm, at), |d: ModuleModel, x| with_table(d, x))
        } else if id == 5 {
            fold_items(d, sections::memory_items(wasm, at), |d: ModuleModel, x| with_memory(d, x))
        } else if id == 6 {
            fold_items(d, sections::global_items(wasm, at), |d: ModuleModel, x| with_global(d, x))
        } else if id == 7 {
            fold_items(d, sections::export_items(wasm, at), |d: ModuleModel, x| with_export(d, x))
        } else if id == 9 {
            fold_items(d, sections::element_items(wasm, at), |d: ModuleModel, x| with_element(d, x))
        } else if id == 11 {
            fold_items(d, sections::data_items(wasm, at), |d: ModuleModel, x| with_data(d, x))
        } else {
            Ok(d)
        },
    }
}

/// What the first `n` payloads of a binary add up to.
pub open spec fn with_payloads(wasm: Seq<u8>, n: nat) -> Result<ModuleModel, ModuleError>
    decreases n,
{
    if n == 0 {
        Ok(empty_module())
    } else {
        match with_payloads(wasm, (n - 1) as nat) {
            Err(x) => Err(x),
            Ok(d) => with_payload(d, wasm, (n - 1) as nat, sections::payload_sorts(wasm)[n - 1]),
        }
    }
}

pub open spec fn empty_module() -> ModuleModel {
    ModuleModel {
        types: Seq::empty(),
        imports: Seq::empty(),
        func_types: Seq::empty(),
        funcs: Seq::empty(),
        globals: Seq::empty(),
        memory: Seq::empty(),
        min_pages: 0,
        max_pages: None,
        table: Seq::empty(),
        exports: Seq::empty(),
    }
}

/// A module without memory gets a page.
pub open spec fn finished(d: ModuleModel) -> ModuleModel {
    if d.memory.len() == 0 {
        ModuleModel {
            memory: zeros(PAGE as int),
            min_pages: if d.min_pages < 1 { 1 } else { d.min_pages },
            ..d
        }
    } else {
        d
    }
}

/// The module that a binary holds.
pub open spec fn parsed(wasm: Seq<u8>) -> Result<ModuleModel, ModuleError> {
    match with_payloads(wasm, sections::payload_sorts(wasm).len()) {
        Err(x) => Err(x),
        Ok(d) => Ok(finished(d)),
    }
}

proof fn lemma_payloads_stopped(wasm: Seq<u8>, k: nat, n: nat)
    requires
        k <= n,
        with_payloads(wasm, k) is Err,
    ensures
        with_payloads(wasm, n) == with_payloads(wasm, k),
    decreases n,
{
    if k < n {
        lemma_payloads_stopped(wasm, k, (n - 1) as nat);
    }
}

/*──────────────────────── a module under construction ────────────────────────*/

fn zero_bytes(n: usize) -> (r: Vec<u8>)
    ensures
        r@ == zeros(n as int),
{
    let r: Vec<u8> = vec![0u8; n];
    assert(r@ =~= zeros(n as int));
    r
}

fn lay<T: Copy>(base: &mut Vec<T>, at: usize, over: &Vec<T>, fill: T)
    requires
        at + over@.len() <= usize::MAX,
    ensures
        final(base)@ == overlay(old(base)@, at as int, over@, fill),
{
    let ghost before = base@;
    let end: usize = at + over.len();
    while base.len() < end
        invariant
            base@.len() >= before.len(),
            base@.len() <= end || base@ == before,
            forall|i: int| 0 <= i < base@.len() ==> base@[i] == if i < before.len() { before[i] } else { fill },
        decreases end - base@.len(),
    {
        base.push(fill);
    }
    let n = over.len();
    for i in 0..n
        invariant
            n == over@.len(),
            at + n <= base@.len(),
            at + n <= usize::MAX,
            base@.len() == (if at + n > before.len() { (at + n) as nat } else { before.len() }),
            forall|j: int| 0 <= j < base@.len() ==> base@[j] == if at <= j < at + i {
                over@[j - at]
            } else if j < before.len() {
                before[j]
            } else {
                fill
            },
    {
        base.set(at + i, over[i]);
    }
    assert(base@ =~= overlay(before, at as int, over@, fill));
}

/// The integer that a constant expression gives by its first operator.
pub fn const_expr_i64(o: &Option<Op>) -> (r: Result<i64, ModuleError>)
    ensures
        r == const_value(*o),
{
    match o {
        None => Err(ModuleError::Malformed),
        Some(Op::I32Const(v)) => Ok(*v as i64),
        Some(Op::I64Const(v)) => Ok(*v),
        Some(Op::GlobalGet(_)) => Ok(0),
        Some(_) => Err(ModuleError::ConstExpr),
    }
}

/// The function index of a `ref.func` expression.
pub fn const_expr_ref_func(o: &Option<Op>) -> (r: Option<u32>)
    ensures
        match *o {
            Some(Op::RefFunc(f)) => r == Some(f),
            _ => r is None,
        },
{
    match o {
        Some(Op::RefFunc(f)) => Some(*f),
        _ => None,
    }
}

/// A module whose sections are being read, one after the other.
pub struct ModuleDraft {
    pub module: WasmModule,
    /// The type indices of the declared functions.
    pub func_types: Vec<u32>,
}

impl WasmModule {
    /// What the module is, given the type indices of its declared functions.
    pub open spec fn draft(self, func_types: Seq<u32>) -> ModuleModel {
        ModuleModel {
            types: sig_models(self.types@),
            imports: import_models(self.imports@),
            func_types,
            funcs: func_models(self.funcs@),
            globals: self.globals@,
            memory: self.memory@,
            min_pages: self.mem_min_pages,
            max_pages: self.mem_max_pages,
            table: self.table@,
            exports: export_models(self.exports@),
        }
    }

    /// What the module is.
    pub open spec fn model(self) -> ModuleModel {
        self.draft(Seq::empty())
    }
}

impl ModuleDraft {
    pub open spec fn model(self) -> ModuleModel {
        self.module.draft(self.func_types@)
    }

    pub fn new() -> (r: ModuleDraft)
        ensures
            r.model() == empty_module(),
    {
        let r = ModuleDraft {
            module: WasmModule {
                types: Vec::new(),
                imports: Vec::new(),
                funcs: Vec::new(),
                globals: Vec::new(),
                memory: Vec::new(),
                mem_min_pages: 0,
                mem_max_pages: None,
                table: Vec::new(),
                exports: Vec::new(),
            },
            func_types: Vec::new(),
        };
        proof {
            assert(sig_models(r.module.types@) =~= Seq::empty());
            assert(import_models(r.module.imports@) =~= Seq::empty());
            assert(func_models(r.module.funcs@) =~= Seq::empty());
            assert(export_models(r.module.exports@) =~= Seq::empty());
        }
        r
    }

    fn add_type_group(&mut self, group: &Vec<(Vec<ValType>, Vec<ValType>)>)
        ensures
            sections::type_group(Some(*group)) matches Some(g) && with_types(old(self).model(), g) == Ok::<ModuleModel, ModuleError>(final(self).model()),
    {
        let ghost before = sig_models(self.module.types@);
        let ghost added = Seq::new(
            group@.len(),
            |i: int| SigModel { params: group@[i].0@, results: group@[i].1@ },
        );
        let n = group.len();
        assert(before + added.take(0) =~= before);
        for i in 0..n
            invariant
                n == group@.len(),
                added == Seq::new(group@.len(), |i: int| SigModel { params: group@[i].0@, results: group@[i].1@ }),
                sig_models(self.module.types@) == before + added.take(i as int),
                self.model() == (ModuleModel { types: before + added.take(i as int), ..old(self).model() }),
        {
            let sig = FuncSig { params: copy_types(&group[i].0), results: copy_types(&group[i].1) };
            let ghost was = self.module.types@;
            self.module.types.push(sig);
            assert(sig_models(self.module.types@) =~= sig_models(was).push(sig.model()));
            assert(before + added.take(i + 1) =~= (before + added.take(i as int)).push(added[i as int]));
        }
        let ghost g = sections::type_group(Some(*group))->0;
        assert(added.take(n as int) =~= Seq::new(g.len(), |i: int| SigModel { params: g[i].0, results: g[i].1 }));
    }

    /// Adds the function types of a type section.
    pub fn add_types(&mut self, groups: &Vec<Option<Vec<(Vec<ValType>, Vec<ValType>)>>>) -> (r: Result<(), ModuleError>)
        ensures
            match fold_items(old(self).model(), sections::type_views(groups@), |d: ModuleModel, x| with_types(d, x)) {
                Ok(d) => r is Ok && final(self).model() == d,
                Err(x) => r == Err::<(), ModuleError>(x),
            },
    {
        let ghost step = |d: ModuleModel, x| with_types(d, x);
        let ghost d0 = self.model();
        let ghost views = sections::type_views(groups@);
        for i in 0..groups.len()
            invariant
                views == sections::type_views(groups@),
                step == (|d: ModuleModel, x| with_types(d, x)),
                d0 == old(self).model(),
                fold_items(d0, views.take(i as int), step) == Ok::<ModuleModel, ModuleError>(self.model()),
        {
            proof {
                lemma_fold_step(d0, views, step, i as int);
            }
            match &groups[i] {
                Some(group) => self.add_type_group(group),
                None => {
                    proof {
                        lemma_fold_stopped(d0, views, step, i + 1);
                    }
                    return Err(ModuleError::Malformed);
                }
            }
        }
        assert(views.take(groups@.len() as int) =~= views);
        Ok(())
    }

    fn add_import(&mut self, item: &Option<(String, String, u32)>) -> (r: Result<(), ModuleError>)
        ensures
            match with_import(old(self).model(), sections::import_item(Some(*item))->0) {
                Ok(d) => r is Ok && final(self).model() == d,
                Err(x) => r == Err::<(), ModuleError>(x),
            },
    {
        if let Some((module, name, ty)) = item {
            let at: usize = *ty as usize;
            if at >= self.module.types.len() {
                return Err(ModuleError::ImportType);
            }
            let sig = self.module.types[at].copy();
            let ghost was = self.module.imports@;
            let import = ImportedFunc { module: module.clone(), name: name.clone(), sig };
            self.module.imports.push(import);
            assert(import_models(self.module.imports@) =~= import_models(was).push(import.model()));
        }
        Ok(())
    }

    /// Adds the functions among the imports of an import section.
    pub fn add_imports(&mut self, items: &Vec<Option<Option<(String, String, u32)>>>) -> (r: Result<(), ModuleError>)
        ensures
            match fold_items(old(self).model(), sections::import_views(items@), |d: ModuleModel, x| with_import(d, x)) {
                Ok(d) => r is Ok && final(self).model() == d,
                Err(x) => r == Err::<(), ModuleError>(x),
            },
    {
        let ghost step = |d: ModuleModel, x| with_import(d, x);
        let ghost d0 = self.model();
        let ghost views = sections::import_views(items@);
        for i in 0..items.len()
            invariant
                views == sections::import_views(items@),
                step == (|d: ModuleModel, x| with_import(d, x)),
                d0 == old(self).model(),
                fold_items(d0, views.take(i as int), step) == Ok::<ModuleModel, ModuleError>(self.model()),
        {
            proof {
                lemma_fold_step(d0, views, step, i as int);
                if fold_items(d0, views.take(i + 1), step) is Err {
                    lemma_fold_stopped(d0, views, step, i + 1);
                }
            }
            match &items[i] {
                Some(item) => match self.add_import(item) {
                    Ok(()) => {}
                    Err(x) => return Err(x),
                },
                None => return Err(ModuleError::Malformed),
            }
        }
        assert(views.take(items@.len() as int) =~= views);
        Ok(())
    }

    /// Adds the declared functions of a function section.
    pub fn add_functions(&mut self, items: &Vec<Option<u32>>) -> (r: Result<(), ModuleError>)
        ensures
            match fold_items(old(self).model(), items@, |d: ModuleModel, x| with_function(d, x)) {
                Ok(d) => r is Ok && final(self).model() == d,
                Err(x) => r == Err::<(), ModuleError>(x),
            },
    {
        let ghost step = |d: ModuleModel, x| with_function(d, x);
        let ghost d0 = self.model();
        for i in 0..items.len()
            invariant
                step == (|d: ModuleModel, x| with_function(d, x)),
                d0 == old(self).model(),
                fold_items(d0, items@.take(i as int), step) == Ok::<ModuleModel, ModuleError>(self.model()),
        {
            proof {
                lemma_fold_step(d0, items@, step, i as int);
                if fold_items(d0, items@.take(i + 1), step) is Err {
                    lemma_fold_stopped(d0, items@, step, i + 1);
                }
            }
            match items[i] {
                Some(ty) => self.func_types.push(ty),
                None => return Err(ModuleError::Malformed),
            }
        }
        assert(items@.take(items@.len() as int) =~= items@);
        Ok(())
    }

    /// Makes the table of a table section; of several, the last counts.
    pub fn add_tables(&mut self, items: &Vec<Option<u64>>) -> (r: Result<(), ModuleError>)
        ensures
            match fold_items(old(self).model(), items@, |d: ModuleModel, x| with_table(d, x)) {
                Ok(d) => r is Ok && final(self).model() == d,
                Err(x) => r == Err::<(), ModuleError>(x),
            },
    {
        let ghost step = |d: ModuleModel, x| with_table(d, x);
        let ghost d0 = self.model();
        for i in 0..items.len()
            invariant
                step == (|d: ModuleModel, x| with_table(d, x)),
                d0 == old(self).model(),
                fold_items(d0, items@.take(i as int), step) == Ok::<ModuleModel, ModuleError>(self.model()),
        {
            proof {
                lemma_fold_step(d0, items@, step, i as int);
                if fold_items(d0, items@.take(i + 1), step) is Err {
                    lemma_fold_stopped(d0, items@, step, i + 1);
                }
            }
            match items[i] {
                Some(size) => {
                    let n: usize = size as usize;
                    let table: Vec<Option<u32>> = vec![None; n];
                    assert(table@ =~= Seq::new(n as nat, |i: int| None::<u32>));
                    self.module.table = table;
                }
                None => return Err(ModuleError::Malformed),
            }
        }
        assert(items@.take(items@.len() as int) =~= items@);
        Ok(())
    }

    /// Makes the memory of a memory section; of several, the last counts.
    pub fn add_memories(&mut self, items: &Vec<Option<(u64, Option<u64>)>>) -> (r: Result<(), ModuleError>)
        ensures
            match fold_items(old(self).model(), items@, |d: ModuleModel, x| with_memory(d, x)) {
                Ok(d) => r is Ok && final(self).model() == d,
                Err(x) => r == Err::<(), ModuleError>(x),
            },
    {
        let ghost step = |d: ModuleModel, x| with_memory(d, x);
        let ghost d0 = self.model();
        for i in 0..items.len()
            invariant
                step == (|d: ModuleModel, x| with_memory(d, x)),
                d0 == old(self).model(),
                fold_items(d0, items@.take(i as int), step) == Ok::<ModuleModel, ModuleError>(self.model()),
        {
            proof {
                lemma_fold_step(d0, items@, step, i as int);
                if fold_items(d0, items@.take(i + 1), step) is Err {
                    lemma_fold_stopped(d0, items@, step, i + 1);
                }
            }
            match items[i] {
                Some((initial, maximum)) => {
                    let pages: u32 = initial as u32;
                    match (pages as usize).checked_mul(PAGE) {
                        Some(size) => {
                            self.module.mem_min_pages = pages;
                            self.module.mem_max_pages = match maximum {
                                Some(max) => Some(max as u32),
                                None => None,
                            };
                            self.module.memory = zero_bytes(size);
                        }
                        None => return Err(ModuleError::Size),
                    }
                }
                None => return Err(ModuleError::Malformed),
            }
        }
        assert(items@.take(items@.len() as int) =~= items@);
        Ok(())
    }

    /// Adds the globals of a global section.
    pub fn add_globals(&mut self, items: &Vec<Option<(ValType, bool, Option<Op>)>>) -> (r: Result<(), ModuleError>)
        ensures
            match fold_items(old(self).model(), items@, |d: ModuleModel, x| with_global(d, x)) {
                Ok(d) => r is Ok && final(self).model() == d,
                Err(x) => r == Err::<(), ModuleError>(x),
            },
    {
        let ghost step = |d: ModuleModel, x| with_global(d, x);
        let ghost d0 = self.model();
        for i in 0..items.len()
            invariant
                step == (|d: ModuleModel, x| with_global(d, x)),
                d0 == old(self).model(),
                fold_items(d0, items@.take(i as int), step) == Ok::<ModuleModel, ModuleError>(self.model()),
        {
            proof {
                lemma_fold_step(d0, items@, step, i as int);
                if fold_items(d0, items@.take(i + 1), step) is Err {
                    lemma_fold_stopped(d0, items@, step, i + 1);
                }
            }
            match &items[i] {
                Some((ty, mutable, init)) => match const_expr_i64(init) {
                    Ok(init) => self.module.globals.push(GlobalDef { ty: *ty, mutable: *mutable, init }),
                    Err(x) => return Err(x),
                },
                None => return Err(ModuleError::Malformed),
            }
        }
        assert(items@.take(items@.len() as int) =~= items@);
        Ok(())
    }

    /// Adds the functions among the exports of an export section.
    pub fn add_exports(&mut self, items: &Vec<Option<Option<(String, u32)>>>) -> (r: Result<(), ModuleError>)
        ensures
            match fold_items(old(self).model(), sections::export_views(items@), |d: ModuleModel, x| with_export(d, x)) {
                Ok(d) => r is Ok && final(self).model() == d,
                Err(x) => r == Err::<(), ModuleError>(x),
            },
    {
        let ghost step = |d: ModuleModel, x| with_export(d, x);
        let ghost d0 = self.model();
        let ghost views = sections::export_views(items@);
        for i in 0..items.len()
            invariant
                views == sections::export_views(items@),
                step == (|d: ModuleModel, x| with_export(d, x)),
                d0 == old(self).model(),
                fold_items(d0, views.take(i as int), step) == Ok::<ModuleModel, ModuleError>(self.model()),
        {
            proof {
                lemma_fold_step(d0, views, step, i as int);
                if fold_items(d0, views.take(i + 1), step) is Err {
                    lemma_fold_stopped(d0, views, step, i + 1);
                }
            }
            match &items[i] {
                Some(Some((name, idx))) => {
                    let ghost was = self.module.exports@;
                    self.module.exports.push((name.clone(), *idx));
                    assert(export_models(self.module.exports@) =~= export_models(was).push((name@, *idx)));
                }
                Some(None) => {}
                None => return Err(ModuleError::Malformed),
            }
        }
        assert(views.take(items@.len() as int) =~= views);
        Ok(())
    }

    fn targets_of(entries: &Vec<Option<Result<u32, Option<Op>>>>) -> (r: Option<Vec<Option<u32>>>)
        ensures
            match (r, element_targets(entries@)) {
                (Some(v), Some(s)) => v@ == s,
                (None, None) => true,
                _ => false,
            },
    {
        let mut out: Vec<Option<u32>> = Vec::new();
        let n = entries.len();
        for i in 0..n
            invariant
                n == entries@.len(),
                out@.len() == i,
                forall|j: int| 0 <= j < i ==> (#[trigger] entries@[j]) is Some,
                forall|j: int| 0 <= j < i ==> (#[trigger] out@[j]) == element_target(entries@[j]->0),
        {
            let target: Option<u32> = match &entries[i] {
                None => {
                    assert(entries@[i as int] is None);
                    return None;
                }
                Some(Ok(f)) => if *f == u32::MAX { None } else { Some(*f) },
                Some(Err(o)) => match const_expr_ref_func(o) {
                    Some(f) => if f == u32::MAX { None } else { Some(f) },
                    None => None,
                },
            };
            assert(target == element_target(entries@[i as int]->0));
            out.push(target);
        }
        assert(out@ =~= element_targets(entries@)->0);
        Some(out)
    }

    /// Lays the active segments of an element section over the table.
    pub fn add_elements(
        &mut self,
        items: &Vec<Option<Option<(Option<u32>, Option<Op>, Vec<Option<Result<u32, Option<Op>>>>)>>>,
    ) -> (r: Result<(), ModuleError>)
        ensures
            match fold_items(old(self).model(), element_views(items@), |d: ModuleModel, x| with_element(d, x)) {
                Ok(d) => r is Ok && final(self).model() == d,
                Err(x) => r == Err::<(), ModuleError>(x),
            },
    {
        let ghost step = |d: ModuleModel, x| with_element(d, x);
        let ghost d0 = self.model();
        let ghost views = element_views(items@);
        for i in 0..items.len()
            invariant
                views == element_views(items@),
                step == (|d: ModuleModel, x| with_element(d, x)),
                d0 == old(self).model(),
                fold_items(d0, views.take(i as int), step) == Ok::<ModuleModel, ModuleError>(self.model()),
        {
            proof {
                lemma_fold_step(d0, views, step, i as int);
                if fold_items(d0, views.take(i + 1), step) is Err {
                    lemma_fold_stopped(d0, views, step, i + 1);
                }
            }
            match &items[i] {
                Some(Some((table, offset, entries))) => {
                    let other = match table {
                        Some(t) => *t != 0,
                        None => false,
                    };
                    if !other {
                        let base: usize = match const_expr_i64(offset) {
                            Ok(v) => v as usize,
                            Err(x) => return Err(x),
                        };
                        match Self::targets_of(entries) {
                            None => return Err(ModuleError::Malformed),
                            Some(targets) => {
                                if targets.len() > usize::MAX - base {
                                    return Err(ModuleError::Size);
                                }
                                lay(&mut self.module.table, base, &targets, None);
                            }
                        }
                    }
                }
                Some(None) => {}
                None => return Err(ModuleError::Malformed),
            }
        }
        assert(views.take(items@.len() as int) =~= views);
        Ok(())
    }

    /// Lays the active segments of a data section over the memory.
    pub fn add_data(&mut self, items: &Vec<Option<Option<(Option<Op>, Vec<u8>)>>>) -> (r: Result<(), ModuleError>)
        ensures
            match fold_items(old(self).model(), data_views(items@), |d: ModuleModel, x| with_data(d, x)) {
                Ok(d) => r is Ok && final(self).model() == d,
                Err(x) => r == Err::<(), ModuleError>(x),
            },
    {
        let ghost step = |d: ModuleModel, x| with_data(d, x);
        let ghost d0 = self.model();
        let ghost views = data_views(items@);
        for i in 0..items.len()
            invariant
                views == data_views(items@),
                step == (|d: ModuleModel, x| with_data(d, x)),
                d0 == old(self).model(),
                fold_items(d0, views.take(i as int), step) == Ok::<ModuleModel, ModuleError>(self.model()),
        {
            proof {
                lemma_fold_step(d0, views, step, i as int);
                if fold_items(d0, views.take(i + 1), step) is Err {
                    lemma_fold_stopped(d0, views, step, i + 1);
                }
            }
            match &items[i] {
                Some(Some((offset, bytes))) => {
                    let base: usize = match const_expr_i64(offset) {
                        Ok(v) => v as usize,
                        Err(x) => return Err(x),
                    };
                    if bytes.len() > usize::MAX - base {
                        return Err(ModuleError::Size);
                    }
                    lay(&mut self.module.memory, base, bytes, 0);
                }
                Some(None) => {}
                None => return Err(ModuleError::Malformed),
            }
        }
        assert(views.take(items@.len() as int) =~= views);
        Ok(())
    }

    fn locals_of(runs: &Vec<Option<(u32, ValType)>>) -> (r: Option<Vec<ValType>>)
        ensures
            match (r, flat_locals(runs@)) {
                (Some(v), Some(s)) => v@ == s,
                (None, None) => true,
                _ => false,
            },
    {
        let mut out: Vec<ValType> = Vec::new();
        let n = runs.len();
        for i in 0..n
            invariant
                n == runs@.len(),
                flat_locals(runs@.take(i as int)) == Some(out@),
        {
            assert(runs@.take(i + 1).drop_last() =~= runs@.take(i as int));
            match runs[i] {
                None => {
                    proof {
                        lemma_locals_stopped(runs@, i + 1);
                    }
                    return None;
                }
                Some((count, ty)) => {
                    let ghost was = out@;
                    for k in 0..count
                        invariant
                            out@ == was + Seq::new(k as nat, |j: int| ty),
                    {
                        out.push(ty);
                        assert(out@ =~= was + Seq::new((k + 1) as nat, |j: int| ty));
                    }
                }
            }
        }
        assert(runs@.take(n as int) =~= runs@);
        Some(out)
    }

    fn ops_of(ops: Vec<Option<Op>>) -> (r: Option<Vec<Op>>)
        ensures
            match (r, all_ops(ops@)) {
                (Some(v), Some(s)) => v@ == s,
                (None, None) => true,
                _ => false,
            },
    {
        let ghost os = ops@;
        let mut rest = ops;
        let mut back: Vec<Op> = Vec::new();
        while rest.len() > 0
            invariant
                rest@ == os.take(rest@.len() as int),
                rest@.len() + back@.len() == os.len(),
                forall|j: int| 0 <= j < back@.len() ==> os[os.len() - 1 - j] == Some(#[trigger] back@[j]),
                os == ops@,
            decreases rest@.len(),
        {
            assert(rest@.last() == os[rest@.len() - 1]);
            match rest.pop() {
                Some(Some(op)) => back.push(op),
                _ => return None,
            }
        }
        let mut body: Vec<Op> = Vec::new();
        let ghost bs = back@;
        while back.len() > 0
            invariant
                back@ == bs.take(back@.len() as int),
                back@.len() + body@.len() == bs.len(),
                bs.len() == os.len(),
                forall|j: int| 0 <= j < bs.len() ==> os[os.len() - 1 - j] == Some(#[trigger] bs[j]),
                forall|j: int| 0 <= j < body@.len() ==> os[j] == Some(#[trigger] body@[j]),
            decreases back@.len(),
        {
            let ghost k = back@.len() - 1;
            assert(back@.last() == bs[k]);
            assert(os[os.len() - 1 - k] == Some(bs[k]));
            match back.pop() {
                Some(op) => body.push(op),
                None => {}
            }
        }
        assert(all_ops(os) is Some) by {
            assert forall|i: int| 0 <= i < os.len() implies os[i] is Some by {
                assert(os[i] == Some(body@[i]));
            }
        }
        assert(all_ops(os)->0 =~= body@) by {
            assert forall|i: int| 0 <= i < os.len() implies os[i]->0 == body@[i] by {
                assert(os[i] == Some(body@[i]));
            }
        }
        Some(body)
    }

    /// Adds the body of the next declared function.
    pub fn add_code(
        &mut self,
        locals: &Option<Vec<Option<(u32, ValType)>>>,
        ops: Option<Vec<Option<Op>>>,
    ) -> (r: Result<(), ModuleError>)
        ensures
            match with_code(
                old(self).model(),
                (match *locals { Some(v) => Some(v@), None => None }),
                (match ops { Some(v) => Some(v@), None => None }),
            ) {
                Ok(d) => r is Ok && final(self).model() == d,
                Err(x) => r == Err::<(), ModuleError>(x),
            },
    {
        let idx: usize = self.module.funcs.len();
        if idx >= self.func_types.len() {
            return Err(ModuleError::CodeTypeMissing);
        }
        let ty: usize = self.func_types[idx] as usize;
        if ty >= self.module.types.len() {
            return Err(ModuleError::CodeType);
        }
        let sig = self.module.types[ty].copy();
        let runs = match locals {
            Some(runs) => runs,
            None => return Err(ModuleError::Malformed),
        };
        let ops = match ops {
            Some(ops) => ops,
            None => return Err(ModuleError::Malformed),
        };
        let locals = match Self::locals_of(runs) {
            Some(locals) => locals,
            None => return Err(ModuleError::Malformed),
        };
        let body = match Self::ops_of(ops) {
            Some(body) => body,
            None => return Err(ModuleError::Malformed),
        };
        let ghost was = self.module.funcs@;
        let f = Function { sig, locals, body };
        self.module.funcs.push(f);
        assert(func_models(self.module.funcs@) =~= func_models(was).push(f.model()));
        Ok(())
    }

    /// The module, with a page of memory if it has none.
    pub fn finish(self) -> (r: WasmModule)
        ensures
            r.draft(self.func_types@) == finished(self.model()),
    {
        let mut module = self.module;
        if module.memory.len() == 0 {
            module.memory = zero_bytes(PAGE);
            if module.mem_min_pages < 1 {
                module.mem_min_pages = 1;
            }
        }
        module
    }
}

/// What the items of an element section are.
pub open spec fn element_views(
    items: Seq<Option<Option<(Option<u32>, Option<Op>, Vec<Option<Result<u32, Option<Op>>>>)>>>,
) -> Seq<Option<Option<(Option<u32>, Option<Op>, Seq<Option<Result<u32, Option<Op>>>>)>>> {
    Seq::new(
        items.len(),
        |i: int| match items[i] {
            Some(Some((table, offset, entries))) => Some(Some((table, offset, entries@))),
            Some(None) => Some(None),
            None => None,
        },
    )
}

/// What the items of a data section are.
pub open spec fn data_views(items: Seq<Option<Option<(Option<Op>, Vec<u8>)>>>) -> Seq<Option<Option<(Option<Op>, Seq<u8>)>>> {
    Seq::new(
        items.len(),
        |i: int| match items[i] {
            Some(Some((offset, bytes))) => Some(Some((offset, bytes@))),
            Some(None) => Some(None),
            None => None,
        },
    )
}

/*──────────────────────── decoding ────────────────────────*/

fn first(o: &Option<Operator<'_>>) -> (r: Option<Op>)
    ensures
        r == sections::first_op(*o),
{
    match o {
        Some(o) => Some(read_op(o)),
        None => None,
    }
}

fn ops_read(ops: &Vec<Option<Operator<'_>>>) -> (r: Vec<Option<Op>>)
    ensures
        r@ == ops@.map_values(|o: Option<Operator<'_>>| sections::first_op(o)),
{
    let mut out: Vec<Option<Op>> = Vec::new();
    for i in 0..ops.len()
        invariant
            out@.len() == i,
            forall|j: int| 0 <= j < i ==> #[trigger] out@[j] == sections::first_op(ops@[j]),
    {
        out.push(first(&ops[i]));
    }
    assert(out@ =~= ops@.map_values(|o: Option<Operator<'_>>| sections::first_op(o)));
    out
}

fn globals_read(items: &Vec<Option<(ValType, bool, Option<Operator<'_>>)>>) -> (r: Vec<Option<(ValType, bool, Option<Op>)>>)
    ensures
        r@ == items@.map_values(|i: Option<(ValType, bool, Option<Operator<'_>>)>| sections::global_item(i)),
{
    let mut out: Vec<Option<(ValType, bool, Option<Op>)>> = Vec::new();
    for i in 0..items.len()
        invariant
            out@.len() == i,
            forall|j: int| 0 <= j < i ==> #[trigger] out@[j] == sections::global_item(items@[j]),
    {
        match &items[i] {
            Some((ty, mutable, init)) => out.push(Some((*ty, *mutable, first(init)))),
            None => out.push(None),
        }
    }
    assert(out@ =~= items@.map_values(|i: Option<(ValType, bool, Option<Operator<'_>>)>| sections::global_item(i)));
    out
}

fn entries_read(entries: &Vec<Option<Result<u32, Option<Operator<'_>>>>>) -> (r: Vec<Option<Result<u32, Option<Op>>>>)
    ensures
        r@ == entries@.map_values(|e: Option<Result<u32, Option<Operator<'static>>>>| sections::element_entry(e)),
{
    let mut out: Vec<Option<Result<u32, Option<Op>>>> = Vec::new();
    for i in 0..entries.len()
        invariant
            out@.len() == i,
            forall|j: int| 0 <= j < i ==> #[trigger] out@[j] == sections::element_entry(entries@[j]),
    {
        match &entries[i] {
            Some(Ok(f)) => out.push(Some(Ok(*f))),
            Some(Err(o)) => out.push(Some(Err(first(o)))),
            None => out.push(None),
        }
    }
    assert(out@ =~= entries@.map_values(|e: Option<Result<u32, Option<Operator<'static>>>>| sections::element_entry(e)));
    out
}

fn elements_read(
    items: &Vec<Option<Option<(Option<u32>, Option<Operator<'_>>, Vec<Option<Result<u32, Option<Operator<'_>>>>>)>>>,
) -> (r: Vec<Option<Option<(Option<u32>, Option<Op>, Vec<Option<Result<u32, Option<Op>>>>)>>>)
    ensures
        element_views(r@) == items@.map_values(
            |i: Option<Option<(Option<u32>, Option<Operator<'_>>, Vec<Option<Result<u32, Option<Operator<'_>>>>>)>>|
                sections::element_item(i),
        ),
{
    let mut out: Vec<Option<Option<(Option<u32>, Option<Op>, Vec<Option<Result<u32, Option<Op>>>>)>>> = Vec::new();
    for i in 0..items.len()
        invariant
            out@.len() == i,
            forall|j: int| 0 <= j < i ==> #[trigger] element_views(out@)[j] == sections::element_item(items@[j]),
    {
        let ghost was = out@;
        match &items[i] {
            Some(Some((table, offset, entries))) => {
                out.push(Some(Some((*table, first(offset), entries_read(entries)))));
            }
            Some(None) => out.push(Some(None)),
            None => out.push(None),
        }
        assert(element_views(out@).drop_last() =~= element_views(was));
        assert(element_views(out@)[i as int] == sections::element_item(items@[i as int]));
        assert forall|j: int| 0 <= j < i + 1 implies #[trigger] element_views(out@)[j] == sections::element_item(items@[j]) by {
            if j < i {
                assert(element_views(was)[j] == element_views(out@)[j]);
            }
        }
    }
    assert(element_views(out@) =~= items@.map_values(
        |i: Option<Option<(Option<u32>, Option<Operator<'_>>, Vec<Option<Result<u32, Option<Operator<'_>>>>>)>>|
            sections::element_item(i),
    ));
    out
}

fn data_read(items: &Vec<Option<Option<(Option<Operator<'_>>, Vec<u8>)>>>) -> (r: Vec<Option<Option<(Option<Op>, Vec<u8>)>>>)
    ensures
        data_views(r@) == items@.map_values(|i: Option<Option<(Option<Operator<'_>>, Vec<u8>)>>| sections::data_item(i)),
{
    let mut out: Vec<Option<Option<(Option<Op>, Vec<u8>)>>> = Vec::new();
    for i in 0..items.len()
        invariant
            out@.len() == i,
            forall|j: int| 0 <= j < i ==> #[trigger] data_views(out@)[j] == sections::data_item(items@[j]),
    {
        let ghost was = out@;
        match &items[i] {
            Some(Some((offset, bytes))) => {
                out.push(Some(Some((first(offset), copy_bytes(bytes.as_slice())))));
            }
            Some(None) => out.push(Some(None)),
            None => out.push(None),
        }
        assert forall|j: int| 0 <= j < i + 1 implies #[trigger] data_views(out@)[j] == sections::data_item(items@[j]) by {
            if j < i {
                assert(data_views(was)[j] == data_views(out@)[j]);
            }
        }
    }
    assert(data_views(out@) =~= items@.map_values(|i: Option<Option<(Option<Operator<'_>>, Vec<u8>)>>| sections::data_item(i)));
    out
}

impl ModuleDraft {
    /// Adds what payload `at` of a binary says.
    fn add_payload(&mut self, wasm: &[u8], at: usize, sort: Option<PayloadSort>) -> (r: Result<(), ModuleError>)
        ensures
            match with_payload(old(self).model(), wasm@, at as nat, sort) {
                Ok(d) => r is Ok && final(self).model() == d,
                Err(x) => r == Err::<(), ModuleError>(x),
            },
    {
        match sort {
            None => Err(ModuleError::Malformed),
            // a component is no module
            Some(PayloadSort::Nested) => Err(ModuleError::Malformed),
            Some(PayloadSort::Other) => match sections::read_code_locals(wasm, at) {
                None => Ok(()),
                Some(locals) => {
                    let ops = match sections::read_code_ops(wasm, at) {
                        Some(ops) => Some(ops_read(&ops)),
                        None => None,
                    };
                    self.add_code(&locals, ops)
                }
            },
            Some(PayloadSort::Section(1)) => self.add_types(&sections::read_type_groups(wasm, at)),
            Some(PayloadSort::Section(2)) => self.add_imports(&sections::read_imports(wasm, at)),
            Some(PayloadSort::Section(3)) => self.add_functions(&sections::read_functions(wasm, at)),
            Some(PayloadSort::Section(4)) => self.add_tables(&sections::read_tables(wasm, at)),
            Some(PayloadSort::Section(5)) => self.add_memories(&sections::read_memories(wasm, at)),
            Some(PayloadSort::Section(6)) => self.add_globals(&globals_read(&sections::read_globals(wasm, at))),
            Some(PayloadSort::Section(7)) => self.add_exports(&sections::read_exports(wasm, at)),
            Some(PayloadSort::Section(9)) => self.add_elements(&elements_read(&sections::read_elements(wasm, at))),
            Some(PayloadSort::Section(11)) => self.add_data(&data_read(&sections::read_data(wasm, at))),
            Some(PayloadSort::Section(_)) => Ok(()),
        }
    }
}

impl WasmModule {
    pub fn num_imported_funcs(&self) -> (r: u32)
        ensures
            r == self.imports@.len() as u32,
    {
        self.imports.len() as u32
    }

    /// Function index -> signature (imported or local).
    pub fn func_sig(&self, idx: u32) -> (r: Option<&FuncSig>)
        ensures
            match r {
                Some(sig) => sig_at(self.model(), idx) == Some(sig.model()),
                None => sig_at(self.model(), idx) is None,
            },
    {
        let at: usize = idx as usize;
        if at < self.imports.len() {
            Some(&self.imports[at].sig)
        } else if at - self.imports.len() < self.funcs.len() {
            Some(&self.funcs[at - self.imports.len()].sig)
        } else {
            None
        }
    }

    /// The index of the function exported under `name`.
    pub fn export(&self, name: &str) -> (r: Option<u32>)
        ensures
            r == export_index(self.model().exports, name@),
    {
        let ghost es = export_models(self.exports@);
        let mut i: usize = self.exports.len();
        assert(es.take(i as int) =~= es);
        while i > 0
            invariant
                i <= self.exports@.len(),
                es == export_models(self.exports@),
                export_index(es.take(i as int), name@) == export_index(es, name@),
            decreases i,
        {
            i = i - 1;
            assert(es.take(i + 1).drop_last() =~= es.take(i as int));
            if same_text(self.exports[i].0.as_str(), name) {
                return Some(self.exports[i].1);
            }
        }
        None
    }

    /// Reads a wasm binary.
    pub fn parse(wasm: &[u8]) -> (r: Result<WasmModule, ModuleError>)
        ensures
            match r {
                Ok(m) => parsed(wasm@) matches Ok(d) && m.draft(d.func_types) == d,
                Err(x) => parsed(wasm@) == Err::<ModuleModel, ModuleError>(x),
            },
    {
        let sorts = sections::read_payload_sorts(wasm);
        let mut draft = ModuleDraft::new();
        let n = sorts.len();
        for i in 0..n
            invariant
                n == sorts@.len(),
                sorts@ == sections::payload_sorts(wasm@),
                with_payloads(wasm@, i as nat) == Ok::<ModuleModel, ModuleError>(draft.model()),
        {
            match draft.add_payload(wasm, i, sorts[i]) {
                Ok(()) => {}
                Err(x) => {
                    proof {
                        lemma_payloads_stopped(wasm@, (i + 1) as nat, n as nat);
                    }
                    return Err(x);
                }
            }
        }
        Ok(draft.finish())
    }
}

proof fn lemma_locals_stopped(runs: Seq<Option<(u32, ValType)>>, k: int)
    requires
        0 <= k <= runs.len(),
        flat_locals(runs.take(k)) is None,
    ensures
        flat_locals(runs) is None,
    decreases runs.len() - k,
{
    if k < runs.len() {
        assert(runs.take(k + 1).drop_last() =~= runs.take(k));
        lemma_locals_stopped(runs, k + 1);
    } else {
        assert(runs.take(k) =~= runs);
    }
}

} // verus!
