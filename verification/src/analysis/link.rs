//! Compiling a contract, defining its imports, and running one of its exports.
use vstd::prelude::*;
use wasmi::{Config, Engine, Extern, ExternType, Global, Linker, Memory, Module, Store, Table, Val};
use crate::analysis::guest::{host_dispatch, stub_results, HostModel, ProbeState};
use crate::analysis::lift::module;
use crate::analysis::lift::module::PAGE;

verus! {

/// What an import is.
#[derive(Debug, Clone, Copy, PartialEq, Eq, Structural)]
pub enum ImportKind {
    Func,
    /// A memory, with its initial size in pages.
    Memory(u32),
    Global,
    Table,
}

/// An import of a contract.
pub struct GuestImport {
    pub module: String,
    pub name: String,
    pub kind: ImportKind,
}

/// What a [`GuestImport`] is.
pub ghost struct ImportModel {
    pub module: Seq<char>,
    pub name: Seq<char>,
    pub kind: ImportKind,
}

impl GuestImport {
    pub open spec fn model(self) -> ImportModel {
        ImportModel { module: self.module@, name: self.name@, kind: self.kind }
    }
}

pub open spec fn import_models(imports: Seq<GuestImport>) -> Seq<ImportModel> {
    Seq::new(imports.len(), |i: int| imports[i].model())
}

/// Whether wasmi compiles bytes to a module that meters fuel, or what its error prints.
pub uninterp spec fn compilation(wasm: Seq<u8>) -> Result<(), Seq<char>>;

/// The bytes that a module was compiled from, and whether it meters fuel.
pub uninterp spec fn module_source(m: Module) -> (Seq<u8>, bool);

/// Compiles a module, by `wasmi::Module::new` with an engine of the default
/// configuration but for fuel metering, which is on; an error is handed out as what it
/// prints.
#[verifier::external_body]
pub(crate) fn compile(wasm: &[u8]) -> (r: Result<Module, String>)
    ensures
        match r {
            Ok(m) => compilation(wasm@) is Ok && module_source(m) == (wasm@, true),
            Err(e) => compilation(wasm@) == Err::<(), Seq<char>>(e@),
        },
{
    let mut config = Config::default();
    config.consume_fuel(true);
    Module::new(&Engine::new(&config), wasm).map_err(|e| e.to_string())
}

/// The imports that a module declares, in order.
pub uninterp spec fn guest_imports(wasm: Seq<u8>) -> Seq<ImportModel>;

/// The imports of a compiled module.
pub open spec fn module_imports(m: Module) -> Seq<ImportModel> {
    guest_imports(module_source(m).0)
}

/// The imports, by `wasmi::Module::imports`: each with its two names and its kind,
/// a memory with its `wasmi::MemoryType::initial_pages`.
#[verifier::external_body]
fn imports_of(m: &Module) -> (r: Vec<GuestImport>)
    ensures
        import_models(r@) == guest_imports(module_source(*m).0),
{
    m.imports().map(|i| GuestImport {
        module: i.module().to_string(),
        name: i.name().to_string(),
        kind: match i.ty() {
            ExternType::Func(_) => ImportKind::Func,
            ExternType::Memory(t) => ImportKind::Memory(t.initial_pages().into()),
            ExternType::Global(_) => ImportKind::Global,
            ExternType::Table(_) => ImportKind::Table,
        },
    }).collect()
}

/// How an import was met.
pub enum Role {
    /// A function of the host.
    Host,
    /// A function that returns the default results.
    Stub,
    /// A memory, global or table in its initial state.
    Fresh,
}

/// An import that was met.
pub ghost struct Linked {
    pub import: int,
    pub role: Role,
}

/// A contract about to run: what it was compiled to, the fuel it has if that is
/// metered, the host's state, and the imports met so far.
pub ghost struct GuestSetup {
    pub module: Module,
    pub fuel: Option<u64>,
    pub state: HostModel,
    pub linked: Seq<Linked>,
}

/// What a store and a linker have been set up for; nothing, if they were not made
/// together.
pub uninterp spec fn guest_setup(s: Store<ProbeState>, l: Linker<ProbeState>) -> Option<GuestSetup>;

/// Makes a store and a linker for a module, by `wasmi::Store::new` and
/// `wasmi::Linker::new` with the module's own engine. Neither has anything in it yet
/// but the host's state.
#[verifier::external_body]
fn new_guest(m: &Module, state: ProbeState) -> (r: (Store<ProbeState>, Linker<ProbeState>))
    ensures
        guest_setup(r.0, r.1) == Some(GuestSetup { module: *m, fuel: None, state: state.model(), linked: Seq::empty() }),
{
    (Store::new(m.engine(), state), <Linker<ProbeState>>::new(m.engine()))
}

/// Gives a store fuel, by `wasmi::Store::set_fuel`, which refuses exactly where fuel
/// is not metered.
#[verifier::external_body]
fn set_fuel(store: &mut Store<ProbeState>, linker: &Linker<ProbeState>, fuel: u64) -> (r: bool)
    ensures
        guest_setup(*old(store), *linker) matches Some(g) ==> {
            &&& r == module_source(g.module).1
            &&& r ==> guest_setup(*final(store), *linker) == Some(GuestSetup { fuel: Some(fuel), ..g })
            &&& !r ==> guest_setup(*final(store), *linker) == Some(g)
        },
{
    store.set_fuel(fuel).is_ok()
}

/// Whether an import of the same two names has been met.
pub open spec fn already(imports: Seq<ImportModel>, linked: Seq<Linked>, i: int) -> bool {
    exists|k: int| 0 <= k < linked.len() && imports[(#[trigger] linked[k]).import].module == imports[i].module
        && imports[linked[k].import].name == imports[i].name
}

/// The imports met once import `i` was offered a definition: the first of its names
/// counts.
pub open spec fn met(imports: Seq<ImportModel>, linked: Seq<Linked>, i: int, role: Role) -> Seq<Linked> {
    if already(imports, linked, i) {
        linked
    } else {
        linked.push(Linked { import: i, role })
    }
}

/// The setup once import `i` was offered a definition.
pub open spec fn offered(g: GuestSetup, i: int, role: Role) -> GuestSetup {
    GuestSetup { linked: met(module_imports(g.module), g.linked, i, role), ..g }
}

/// Defines a function import as a function of the host, by `wasmi::Linker::func_new`,
/// which refuses names that are defined already. The function calls
/// [`host_dispatch`] with the import's name and the defaults of its result types.
#[verifier::external_body]
fn define_host(store: &Store<ProbeState>, linker: &mut Linker<ProbeState>, m: &Module, i: usize) -> (r: bool)
    requires
        guest_setup(*store, *old(linker)) matches Some(g) && g.module == *m,
        i < module_imports(*m).len(),
        module_imports(*m)[i as int].kind == ImportKind::Func,
    ensures
        guest_setup(*store, *old(linker)) matches Some(g) && guest_setup(*store, *final(linker)) == Some(offered(g, i as int, Role::Host))
            && r == !already(module_imports(*m), g.linked, i as int),
{
    let import = m.imports().nth(i).unwrap();
    let ty = import.ty().func().unwrap().clone();
    let name = import.name().to_string();
    let defaults: Vec<Val> = ty.results().iter().map(|t| Val::default(*t)).collect();
    linker.func_new(import.module(), import.name(), ty, move |mut caller, params, outputs| {
        host_dispatch(&name, &mut caller, params, outputs, &defaults)
    }).is_ok()
}

/// Defines a function import as a stub, by `wasmi::Linker::func_new`, which refuses
/// names that are defined already. The function calls [`stub_results`] with the
/// defaults of its result types.
#[verifier::external_body]
fn define_stub(store: &Store<ProbeState>, linker: &mut Linker<ProbeState>, m: &Module, i: usize) -> (r: bool)
    requires
        guest_setup(*store, *old(linker)) matches Some(g) && g.module == *m,
        i < module_imports(*m).len(),
        module_imports(*m)[i as int].kind == ImportKind::Func,
    ensures
        guest_setup(*store, *old(linker)) matches Some(g) && guest_setup(*store, *final(linker)) == Some(offered(g, i as int, Role::Stub))
            && r == !already(module_imports(*m), g.linked, i as int),
{
    let import = m.imports().nth(i).unwrap();
    let ty = import.ty().func().unwrap().clone();
    let defaults: Vec<Val> = ty.results().iter().map(|t| Val::default(*t)).collect();
    linker.func_new(import.module(), import.name(), ty, move |_caller, _params, outputs| {
        stub_results(outputs, &defaults)
    }).is_ok()
}

/// Whether an import is no memory, or one that a program can address: of at most
/// half the bytes that pointers tell apart.
pub open spec fn memory_fits(kind: ImportKind) -> bool {
    match kind {
        ImportKind::Memory(pages) => pages * PAGE <= isize::MAX + 1,
        _ => true,
    }
}

/// Defines a memory import, by `wasmi::Memory::new` and `wasmi::Linker::define`. The
/// first refuses exactly the sizes that are out of the platform's bounds, the second
/// names that are defined already.
#[verifier::external_body]
fn define_memory(store: &mut Store<ProbeState>, linker: &mut Linker<ProbeState>, m: &Module, i: usize) -> (r: Option<bool>)
    requires
        guest_setup(*old(store), *old(linker)) matches Some(g) && g.module == *m,
        i < module_imports(*m).len(),
        module_imports(*m)[i as int].kind is Memory,
    ensures
        r is Some <==> memory_fits(module_imports(*m)[i as int].kind),
        guest_setup(*old(store), *old(linker)) matches Some(g) && match r {
            Some(fresh) => guest_setup(*final(store), *final(linker)) == Some(offered(g, i as int, Role::Fresh))
                && fresh == !already(module_imports(*m), g.linked, i as int),
            None => guest_setup(*final(store), *final(linker)) == Some(g),
        },
{
    let import = m.imports().nth(i).unwrap();
    let memory = Memory::new(&mut *store, *import.ty().memory().unwrap()).ok()?;
    Some(linker.define(import.module(), import.name(), Extern::Memory(memory)).is_ok())
}

/// Defines a global import with the default of its type, by `wasmi::Global::new` and
/// `wasmi::Linker::define`, which refuses names that are defined already.
#[verifier::external_body]
fn define_global(store: &mut Store<ProbeState>, linker: &mut Linker<ProbeState>, m: &Module, i: usize) -> (r: bool)
    requires
        guest_setup(*old(store), *old(linker)) matches Some(g) && g.module == *m,
        i < module_imports(*m).len(),
        module_imports(*m)[i as int].kind == ImportKind::Global,
    ensures
        guest_setup(*old(store), *old(linker)) matches Some(g)
            && guest_setup(*final(store), *final(linker)) == Some(offered(g, i as int, Role::Fresh))
            && r == !already(module_imports(*m), g.linked, i as int),
{
    let import = m.imports().nth(i).unwrap();
    let ty = *import.ty().global().unwrap();
    let global = Global::new(&mut *store, Val::default(ty.content()), ty.mutability());
    linker.define(import.module(), import.name(), Extern::Global(global)).is_ok()
}

/// Defines a table import filled with the default of its element type, by
/// `wasmi::Table::new` and `wasmi::Linker::define`, which refuses names that are
/// defined already. The first refuses only an element of another type.
#[verifier::external_body]
fn define_table(store: &mut Store<ProbeState>, linker: &mut Linker<ProbeState>, m: &Module, i: usize) -> (r: Option<bool>)
    requires
        guest_setup(*old(store), *old(linker)) matches Some(g) && g.module == *m,
        i < module_imports(*m).len(),
        module_imports(*m)[i as int].kind == ImportKind::Table,
    ensures
        r is Some,
        guest_setup(*old(store), *old(linker)) matches Some(g)
            && guest_setup(*final(store), *final(linker)) == Some(offered(g, i as int, Role::Fresh))
            && r == Some(!already(module_imports(*m), g.linked, i as int)),
{
    let import = m.imports().nth(i).unwrap();
    let ty = *import.ty().table().unwrap();
    let table = Table::new(&mut *store, ty, Val::default(ty.element())).ok()?;
    Some(linker.define(import.module(), import.name(), Extern::Table(table)).is_ok())
}

/// Why a contract did not come to the end of a call.
#[derive(Debug, PartialEq, Eq)]
pub enum GuestFault {
    /// Its imports are not met as it declares them, or its segments do not fit: what
    /// the error prints. That text may name a handle by a number that counts the stores
    /// of the process, so that no contract says what it is.
    Instantiation(String),
    /// Its start function trapped: what the trap prints.
    Start(String),
    /// It exports no such function, or one of another type.
    NoExport,
    /// The call trapped: what the trap prints.
    Trap(String),
}

/// What a [`GuestFault`] is, but for the text of a failed instantiation.
pub ghost enum FaultModel {
    Instantiation,
    Start(Seq<char>),
    NoExport,
    Trap(Seq<char>),
}

impl GuestFault {
    pub open spec fn model(self) -> FaultModel {
        match self {
            GuestFault::Instantiation(_) => FaultModel::Instantiation,
            GuestFault::Start(s) => FaultModel::Start(s@),
            GuestFault::NoExport => FaultModel::NoExport,
            GuestFault::Trap(s) => FaultModel::Trap(s@),
        }
    }
}

/// What a call of an export comes to: the pointer it returned and the memory it
/// exports, and the host's state afterwards.
pub ghost struct GuestRun {
    pub end: Result<(i32, Option<Seq<u8>>), FaultModel>,
    pub state: HostModel,
}

/// Whether bytes are a module of which every operator is one that the interpreter of
/// `lift` knows: none computes with floating-point numbers.
pub open spec fn integer_only(wasm: Seq<u8>) -> bool {
    module::parsed(wasm) matches Ok(d) && forall|i: int, j: int|
        0 <= i < d.funcs.len() && 0 <= j < d.funcs[i].body.len() ==> !((#[trigger] d.funcs[i].body[j]) is Other)
}

/// What a contract's code comes to in the interpreter.
pub ghost enum Code {
    /// Integer code: its bytes, whether fuel is metered, and how far addresses reach.
    Bytes { wasm: Seq<u8>, metered: bool, reach: usize },
    /// One compilation of other code. The interpreter leaves the bits of a NaN to the
    /// machine, so that nothing is said of another compilation.
    Compiled(Module),
}

pub open spec fn code_of(m: Module) -> Code {
    let (wasm, metered) = module_source(m);
    if integer_only(wasm) {
        Code::Bytes { wasm, metered, reach: usize::MAX }
    } else {
        Code::Compiled(m)
    }
}

/// All that a run depends on.
pub ghost struct Task {
    pub code: Code,
    pub fuel: Option<u64>,
    pub state: HostModel,
    pub linked: Seq<Linked>,
}

impl GuestSetup {
    /// The run that is set up.
    pub open spec fn task(self) -> Task {
        Task { code: code_of(self.module), fuel: self.fuel, state: self.state, linked: self.linked }
    }
}

/// The run of an export: a name for what the interpreter does with the code and the
/// host functions of a task.
pub uninterp spec fn guest_run(t: Task, export: Seq<char>) -> GuestRun;

pub open spec fn end_model(r: Result<(i32, Option<Vec<u8>>), GuestFault>) -> Result<(i32, Option<Seq<u8>>), FaultModel> {
    match r {
        Ok((ptr, Some(m))) => Ok((ptr, Some(m@))),
        Ok((ptr, None)) => Ok((ptr, None)),
        Err(f) => Err(f.model()),
    }
}

/// Instantiates a module, runs its start function, and calls an export of type
/// `() -> i32`: by `wasmi::Linker::instantiate`, `wasmi::InstancePre::start`,
/// `wasmi::Instance::get_typed_func` and `wasmi::TypedFunc::call`. Hands out a copy
/// of the memory exported as `memory`. The guest has fuel, so that it comes back or
/// traps even where it loops for ever. What comes of it is what [`guest_run`] names: of
/// integer code it rests on the bytes, the metering, the bounds of addresses, the fuel,
/// the host's state and the definitions alone, so that every compilation runs alike.
#[verifier::external_body]
fn run_export(m: &Module, linker: &Linker<ProbeState>, store: &mut Store<ProbeState>, export: &str) -> (r: Result<(i32, Option<Vec<u8>>), GuestFault>)
    requires
        guest_setup(*old(store), *linker) matches Some(g) && g.module == *m && g.fuel is Some,
    ensures
        guest_setup(*old(store), *linker) matches Some(g) && end_model(r) == guest_run(g.task(), export@).end
            && host_state(*final(store)) == guest_run(g.task(), export@).state,
{
    let pre = linker.instantiate(&mut *store, m).map_err(|e| GuestFault::Instantiation(e.to_string()))?;
    let instance = pre.start(&mut *store).map_err(|e| GuestFault::Start(e.to_string()))?;
    let func = instance.get_typed_func::<(), i32>(&*store, export).map_err(|_| GuestFault::NoExport)?;
    let ptr = func.call(&mut *store, ()).map_err(|e| GuestFault::Trap(e.to_string()))?;
    let memory = instance.get_memory(&*store, "memory").map(|x| x.data(&*store).to_vec());
    Ok((ptr, memory))
}

/// The host's state in a store.
pub uninterp spec fn host_state(s: Store<ProbeState>) -> HostModel;

/// Takes the host's state out of a store, by `wasmi::Store::into_data`.
#[verifier::external_body]
fn into_state(store: Store<ProbeState>) -> (r: ProbeState)
    ensures
        r.model() == host_state(store),
{
    store.into_data()
}

/// Why an import could not be met.
#[derive(Debug, Clone, Copy, PartialEq, Eq, Structural)]
pub enum LinkError {
    /// A memory is larger than a program can address.
    Memory,
    /// A table was refused.
    Table,
    /// Two imports have the same names.
    Duplicate,
}

/// The imports met once the first `n` were offered definitions: functions of the host
/// where `probing`, and stubs where not. Only then is it an error if two imports have
/// the same names.
pub open spec fn links(imports: Seq<ImportModel>, probing: bool, n: nat) -> Result<Seq<Linked>, LinkError>
    decreases n,
{
    if n == 0 {
        Ok(Seq::empty())
    } else {
        match links(imports, probing, (n - 1) as nat) {
            Err(e) => Err(e),
            Ok(linked) => {
                let i = n - 1;
                let kind = imports[i].kind;
                if !memory_fits(kind) {
                    Err(LinkError::Memory)
                } else if !probing && already(imports, linked, i) {
                    Err(LinkError::Duplicate)
                } else {
                    Ok(met(imports, linked, i, if kind != ImportKind::Func { Role::Fresh } else if probing { Role::Host } else { Role::Stub }))
                }
            }
        }
    }
}

proof fn lemma_links_stopped(imports: Seq<ImportModel>, probing: bool, k: nat, n: nat)
    requires
        k <= n,
        links(imports, probing, k) is Err,
    ensures
        links(imports, probing, n) == links(imports, probing, k),
    decreases n,
{
    if k < n {
        lemma_links_stopped(imports, probing, k, (n - 1) as nat);
    }
}

/// Define every import by dispatching on its kind. Non-func imports get defaults.
fn define_imports(m: &Module, store: &mut Store<ProbeState>, linker: &mut Linker<ProbeState>, probing: bool) -> (r: Result<(), LinkError>)
    requires
        guest_setup(*old(store), *old(linker)) matches Some(g) && g.module == *m && g.linked == Seq::<Linked>::empty(),
    ensures
        guest_setup(*old(store), *old(linker)) matches Some(g) && match (r, links(module_imports(*m), probing, module_imports(*m).len())) {
            (Ok(()), Ok(linked)) => guest_setup(*final(store), *final(linker)) == Some(GuestSetup { linked, ..g }),
            (Err(e), Err(f)) => e == f,
            _ => false,
        },
{
    let imports = imports_of(m);
    let ghost all = module_imports(*m);
    let ghost g = guest_setup(*store, *linker)->Some_0;
    let n: usize = imports.len();
    assert(n == all.len());
    for i in 0..n
        invariant
            n == imports@.len() == all.len(),
            import_models(imports@) == all,
            all == module_imports(*m),
            guest_setup(*old(store), *old(linker)) == Some(g),
            g.module == *m,
            links(all, probing, i as nat) matches Ok(linked) && guest_setup(*store, *linker) == Some(GuestSetup { linked, ..g }),
    {
        proof {
            assert(all[i as int] == imports@[i as int].model());
            if links(all, probing, (i + 1) as nat) is Err {
                lemma_links_stopped(all, probing, (i + 1) as nat, n as nat);
            }
        }
        let fresh: bool = match imports[i].kind {
            ImportKind::Func => {
                if probing {
                    define_host(store, linker, m, i)
                } else {
                    define_stub(store, linker, m, i)
                }
            }
            ImportKind::Memory(_) => match define_memory(store, linker, m, i) {
                None => {
                    return Err(LinkError::Memory);
                }
                Some(fresh) => fresh,
            },
            ImportKind::Global => define_global(store, linker, m, i),
            ImportKind::Table => match define_table(store, linker, m, i) {
                None => {
                    return Err(LinkError::Table);
                }
                Some(fresh) => fresh,
            },
        };
        if !fresh && !probing {
            return Err(LinkError::Duplicate);
        }
    }
    Ok(())
}

/// Why an export was not called.
#[derive(Debug, Clone, Copy, PartialEq, Eq, Structural)]
pub enum SetupError {
    /// Fuel is not metered.
    Fuel,
    Link(LinkError),
}

/// A compiled contract, as far as its runs depend on it.
pub ghost struct Program {
    pub code: Code,
    pub imports: Seq<ImportModel>,
    pub metered: bool,
}

pub open spec fn program_of(m: Module) -> Program {
    Program { code: code_of(m), imports: module_imports(m), metered: module_source(m).1 }
}

/// What a call of an export comes to, from a fresh start.
pub open spec fn export_run(p: Program, fuel: u64, state: HostModel, probing: bool, export: Seq<char>) -> Result<GuestRun, SetupError> {
    if !p.metered {
        Err(SetupError::Fuel)
    } else {
        match links(p.imports, probing, p.imports.len()) {
            Err(e) => Err(SetupError::Link(e)),
            Ok(linked) => Ok(guest_run(Task { code: p.code, fuel: Some(fuel), state, linked }, export)),
        }
    }
}

/// Two compilations of the same integer code run alike.
pub proof fn lemma_same_program(a: Module, b: Module)
    requires
        module_source(a) == module_source(b),
        integer_only(module_source(a).0),
    ensures
        program_of(a) == program_of(b),
{
}

/// What a call of an export leaves behind.
pub struct Finished {
    pub end: Result<(i32, Option<Vec<u8>>), GuestFault>,
    pub state: ProbeState,
}

impl Finished {
    pub open spec fn model(self) -> GuestRun {
        GuestRun { end: end_model(self.end), state: self.state.model() }
    }
}

/// Calls an export of a contract in a fresh instance, with so much fuel.
pub(crate) fn call_export(m: &Module, fuel: u64, state: ProbeState, probing: bool, export: &str) -> (r: Result<Finished, SetupError>)
    ensures
        match (r, export_run(program_of(*m), fuel, state.model(), probing, export@)) {
            (Ok(f), Ok(run)) => f.model() == run,
            (Err(e), Err(x)) => e == x,
            _ => false,
        },
{
    let (mut store, mut linker) = new_guest(m, state);
    if !set_fuel(&mut store, &linker, fuel) {
        return Err(SetupError::Fuel);
    }
    match define_imports(m, &mut store, &mut linker, probing) {
        Err(e) => {
            return Err(SetupError::Link(e));
        }
        Ok(()) => {}
    }
    let end = run_export(m, &linker, &mut store, export);
    let state = into_state(store);
    Ok(Finished { end, state })
}

} // verus!
