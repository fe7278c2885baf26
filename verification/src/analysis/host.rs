//! The probe host: a minimal alkanes indexer-in-a-box that runs a contract's
//! `__execute` under full oracle control: we supply the context (opcode +
//! inputs), the storage values, and the chain height, and we record every
//! storage key the contract requests plus the response it produces.
//!
//! Conventions of the host:
//!   - passback pointers: data at `ptr`, u32 LE length at `ptr - 4`
//!   - `__request_storage(key) -> len` then `__load_storage(key, out)`
//!   - `__request_context() -> len` then `__load_context(out)`
//!   - `__height(out)` writes a u64 LE
//!   - context bytes: flat u128 LE words `[myself.block, myself.tx,
//!     caller.block, caller.tx, vout, transfer_count, (block, tx, value)*,
//!     opcode, inputs...]`
//!   - errors abort (trap); a successful `__execute` returns a pointer to a
//!     serialized ExtendedCallResponse (parcel, storage map, data)
use vstd::prelude::*;
use wasmi::Module;
use crate::analysis::guest;
use crate::analysis::guest::{read_passback, HostModel, ProbeState};
use crate::analysis::link;
use crate::analysis::link::{call_export, compile, FaultModel, Finished, GuestFault, GuestRun, LinkError, Program, SetupError};
use crate::analysis::response;
use crate::analysis::response::{response_data, ResponseError};
use crate::bytes;
use crate::bytes::{copy_map, flatten_words, same_bytes, ByteMap};
use crate::text;
use crate::text::push_decimal;

verus! {

/// The world a probe run executes against.
pub struct Oracle {
    /// Missing keys read as zero-length values.
    pub storage: ByteMap<Vec<u8>>,
    pub height: u64,
    pub myself: (u128, u128),
    pub caller: (u128, u128),
    pub vout: u128,
    pub incoming: Vec<(u128, u128, u128)>,
}

/// What an [`Oracle`] is.
pub ghost struct OracleModel {
    pub storage: Map<Seq<u8>, Seq<u8>>,
    pub height: u64,
    pub myself: (u128, u128),
    pub caller: (u128, u128),
    pub vout: u128,
    pub incoming: Seq<(u128, u128, u128)>,
}

/// The world with nothing stored.
pub open spec fn default_oracle() -> OracleModel {
    OracleModel {
        storage: Map::empty(),
        height: 880_001,
        myself: (2, 7777),
        caller: (0, 0),
        vout: 4,
        incoming: Seq::empty(),
    }
}

impl Default for Oracle {
    fn default() -> (r: Self)
        ensures
            r.model() == default_oracle(),
    {
        let r = Oracle {
            storage: ByteMap::new(),
            height: 880_001,
            myself: (2, 7777),
            caller: (0, 0),
            vout: 4,
            incoming: Vec::new(),
        };
        assert(r.model().storage =~= Map::empty());
        assert(r.incoming@ =~= Seq::empty());
        r
    }
}

/// The words of the transfers.
pub open spec fn transfer_words(incoming: Seq<(u128, u128, u128)>) -> Seq<u128>
    decreases incoming.len(),
{
    if incoming.len() == 0 {
        Seq::empty()
    } else {
        transfer_words(incoming.drop_last()) + seq![incoming.last().0, incoming.last().1, incoming.last().2]
    }
}

/// The words of a call's context.
pub open spec fn context_words(o: OracleModel, opcode: u128, args: Seq<u128>) -> Seq<u128> {
    seq![o.myself.0, o.myself.1, o.caller.0, o.caller.1, o.vout, o.incoming.len() as u128]
        + transfer_words(o.incoming) + seq![opcode] + args
}

impl Oracle {
    pub open spec fn model(self) -> OracleModel {
        OracleModel {
            storage: bytes::bytes_map(self.storage.map()),
            height: self.height,
            myself: self.myself,
            caller: self.caller,
            vout: self.vout,
            incoming: self.incoming@,
        }
    }

    /// The same world, again.
    pub fn copy(&self) -> (r: Oracle)
        ensures
            r.model() == self.model(),
    {
        Oracle {
            storage: copy_map(&self.storage),
            height: self.height,
            myself: self.myself,
            caller: self.caller,
            vout: self.vout,
            incoming: vstd::slice::slice_to_vec(self.incoming.as_slice()),
        }
    }

    /// The context of a call, serialized.
    pub fn context_bytes(&self, opcode: u128, args: &[u128]) -> (r: Vec<u8>)
        ensures
            r@ == bytes::words_bytes(context_words(self.model(), opcode, args@)),
    {
        let mut words: Vec<u128> = vec![
            self.myself.0,
            self.myself.1,
            self.caller.0,
            self.caller.1,
            self.vout,
            self.incoming.len() as u128,
        ];
        let ghost head = words@;
        for i in 0..self.incoming.len()
            invariant
                words@ == head + transfer_words(self.incoming@.take(i as int)),
        {
            let (block, tx, value) = self.incoming[i];
            assert(self.incoming@.take(i + 1).drop_last() =~= self.incoming@.take(i as int));
            words.push(block);
            words.push(tx);
            words.push(value);
            assert(words@ =~= head + transfer_words(self.incoming@.take(i + 1)));
        }
        assert(self.incoming@.take(self.incoming@.len() as int) =~= self.incoming@);
        words.push(opcode);
        let mut rest = vstd::slice::slice_to_vec(args);
        words.append(&mut rest);
        assert(words@ =~= context_words(self.model(), opcode, args@));
        flatten_words(words.as_slice())
    }
}

impl Clone for Oracle {
    fn clone(&self) -> (r: Self)
        ensures
            r.model() == self.model(),
    {
        self.copy()
    }
}

#[derive(Debug, Clone, PartialEq, Eq)]
pub enum Outcome {
    /// `CallResponse.data` of a successful execution.
    Success(Vec<u8>),
    /// The contract aborted or trapped (alkanes errors always abort).
    Trap(String),
    /// The method used a host facility plans cannot model (extcalls,
    /// transaction/block access, balances, ...).
    Disqualified(&'static str),
}

/// What an [`Outcome`] is.
pub ghost enum OutcomeModel {
    Success(Seq<u8>),
    Trap(Seq<char>),
    Disqualified(&'static str),
}

impl Outcome {
    pub open spec fn model(self) -> OutcomeModel {
        match self {
            Outcome::Success(b) => OutcomeModel::Success(b@),
            Outcome::Trap(s) => OutcomeModel::Trap(s@),
            Outcome::Disqualified(d) => OutcomeModel::Disqualified(d),
        }
    }
}

#[derive(Debug, Clone, PartialEq, Eq)]
pub struct RunResult {
    pub outcome: Outcome,
    /// Distinct storage keys in first-request order.
    pub keys: Vec<Vec<u8>>,
}

/// What a [`RunResult`] is.
pub ghost struct RunModel {
    pub outcome: OutcomeModel,
    pub keys: Seq<Seq<u8>>,
}

impl RunResult {
    pub open spec fn model(self) -> RunModel {
        RunModel { outcome: self.outcome.model(), keys: guest::key_list(self.keys@) }
    }
}

/// Why a contract could not be probed.
#[derive(Debug, PartialEq, Eq)]
pub enum ProbeError {
    /// The bytes are no module: why.
    InvalidWasm(String),
    /// Fuel is not metered.
    Fuel,
    /// An imported memory is larger than a program can address.
    ImportedMemory,
    ImportedTable,
    /// The module could not be instantiated and started: why.
    Instantiation(String),
    /// The contract exports no `__execute`.
    NoExecute,
    /// The contract exports no memory.
    NoMemory,
}

/// What a [`ProbeError`] is, but for the text of a failed instantiation.
pub ghost enum ProbeFault {
    InvalidWasm(Seq<char>),
    Fuel,
    ImportedMemory,
    ImportedTable,
    Instantiation,
    NoExecute,
    NoMemory,
}

impl ProbeError {
    pub open spec fn model(self) -> ProbeFault {
        match self {
            ProbeError::InvalidWasm(s) => ProbeFault::InvalidWasm(s@),
            ProbeError::Fuel => ProbeFault::Fuel,
            ProbeError::ImportedMemory => ProbeFault::ImportedMemory,
            ProbeError::ImportedTable => ProbeFault::ImportedTable,
            ProbeError::Instantiation(_) => ProbeFault::Instantiation,
            ProbeError::NoExecute => ProbeFault::NoExecute,
            ProbeError::NoMemory => ProbeFault::NoMemory,
        }
    }
}

/// The keys, each where it was requested first.
pub open spec fn distinct(keys: Seq<Seq<u8>>) -> Seq<Seq<u8>>
    decreases keys.len(),
{
    if keys.len() == 0 {
        Seq::empty()
    } else {
        let before = distinct(keys.drop_last());
        if before.contains(keys.last()) {
            before
        } else {
            before.push(keys.last())
        }
    }
}

/// No key is reported twice, and none is left out.
pub proof fn lemma_distinct(keys: Seq<Seq<u8>>)
    ensures
        distinct(keys).no_duplicates(),
        forall|k: Seq<u8>| distinct(keys).contains(k) <==> keys.contains(k),
    decreases keys.len(),
{
    if keys.len() > 0 {
        let before = keys.drop_last();
        lemma_distinct(before);
        assert forall|k: Seq<u8>| distinct(keys).contains(k) <==> keys.contains(k) by {
            if keys.contains(k) && k != keys.last() {
                let i = choose|i: int| 0 <= i < keys.len() && keys[i] == k;
                assert(before[i] == k);
                assert(before.contains(k));
            }
            if before.contains(k) {
                let i = choose|i: int| 0 <= i < before.len() && before[i] == k;
                assert(keys[i] == k);
            }
            if distinct(before).contains(k) && !distinct(before).contains(keys.last()) {
                let i = choose|i: int| 0 <= i < distinct(before).len() && distinct(before)[i] == k;
                assert(distinct(keys)[i] == k);
            }
            if k == keys.last() && !distinct(before).contains(k) {
                assert(distinct(keys)[distinct(before).len() as int] == k);
            }
        }
    }
}

/// Whether `key` is among `keys`.
pub fn holds_key(keys: &Vec<Vec<u8>>, key: &[u8]) -> (r: bool)
    ensures
        r == guest::key_list(keys@).contains(key@),
{
    for i in 0..keys.len()
        invariant
            forall|j: int| 0 <= j < i ==> (#[trigger] keys@[j])@ != key@,
    {
        if same_bytes(keys[i].as_slice(), key) {
            assert(guest::key_list(keys@)[i as int] == key@);
            return true;
        }
    }
    assert(!guest::key_list(keys@).contains(key@)) by {
        if guest::key_list(keys@).contains(key@) {
            let j = choose|j: int| 0 <= j < keys@.len() && guest::key_list(keys@)[j] == key@;
            assert(keys@[j]@ == key@);
        }
    }
    false
}

fn distinct_keys(keys: &Vec<Vec<u8>>) -> (r: Vec<Vec<u8>>)
    ensures
        guest::key_list(r@) == distinct(guest::key_list(keys@)),
{
    let mut out: Vec<Vec<u8>> = Vec::new();
    let ghost all = guest::key_list(keys@);
    assert(guest::key_list(out@) =~= distinct(all.take(0)));
    let n: usize = keys.len();
    for i in 0..n
        invariant
            n == keys@.len(),
            all == guest::key_list(keys@),
            guest::key_list(out@) == distinct(all.take(i as int)),
    {
        let ghost before = guest::key_list(out@);
        assert(all.take(i + 1).drop_last() =~= all.take(i as int));
        assert(all[i as int] == keys@[i as int]@);
        if !holds_key(&out, keys[i].as_slice()) {
            let key = bytes::copy_bytes(keys[i].as_slice());
            out.push(key);
            assert(guest::key_list(out@) =~= before.push(key@));
        }
    }
    assert(all.take(n as int) =~= all);
    out
}

pub open spec fn response_text(e: ResponseError) -> Seq<char> {
    match e {
        ResponseError::Truncated => "probe: response truncated"@,
        ResponseError::TransferCount(n) => "probe: implausible transfer count "@ + text::decimal(n as int),
        ResponseError::StorageMap => "probe: response truncated at storage map"@,
        ResponseError::StorageEntry => "probe: response truncated in storage map"@,
        ResponseError::End => "probe: response truncated after storage map"@,
    }
}

impl ResponseError {
    /// What went wrong, in words.
    pub fn message(&self) -> (r: String)
        ensures
            r@ == response_text(*self),
    {
        match self {
            ResponseError::Truncated => String::from_str("probe: response truncated"),
            ResponseError::TransferCount(n) => {
                let mut out = String::from_str("probe: implausible transfer count ");
                push_decimal(&mut out, *n);
                out
            }
            ResponseError::StorageMap => String::from_str("probe: response truncated at storage map"),
            ResponseError::StorageEntry => String::from_str("probe: response truncated in storage map"),
            ResponseError::End => String::from_str("probe: response truncated after storage map"),
        }
    }
}

/// What a response pointer comes to.
pub open spec fn response_outcome(memory: Seq<u8>, ptr: i32) -> OutcomeModel {
    match guest::passback(memory, ptr as usize) {
        Err(e) => OutcomeModel::Trap("bad response pointer: "@ + guest::passback_text(e)),
        Ok(b) => match response::data_start(b) {
            Err(e) => OutcomeModel::Trap("bad response: "@ + response_text(e)),
            Ok(p) => OutcomeModel::Success(b.subrange(p, b.len() as int)),
        },
    }
}

fn read_response(memory: &[u8], ptr: i32) -> (r: Outcome)
    ensures
        r.model() == response_outcome(memory@, ptr),
{
    match read_passback(memory, ptr as usize) {
        Err(e) => {
            let mut out = String::from_str("bad response pointer: ");
            out.append(e.message().as_str());
            Outcome::Trap(out)
        }
        Ok(b) => match response_data(b.as_slice()) {
            Err(e) => {
                let mut out = String::from_str("bad response: ");
                out.append(e.message().as_str());
                Outcome::Trap(out)
            }
            Ok(data) => Outcome::Success(data),
        },
    }
}

/// What a run of `__execute` comes to. A disqualification counts before anything
/// that the call itself came to.
pub open spec fn finished(run: GuestRun) -> Result<RunModel, ProbeFault> {
    match run.end {
        Err(FaultModel::Instantiation) => Err(ProbeFault::Instantiation),
        Err(FaultModel::Start(_)) => Err(ProbeFault::Instantiation),
        Err(FaultModel::NoExport) => Err(ProbeFault::NoExecute),
        Err(FaultModel::Trap(text)) => Ok(RunModel {
            outcome: match run.state.disqualified {
                Some(d) => OutcomeModel::Disqualified(d),
                None => OutcomeModel::Trap(text),
            },
            keys: distinct(run.state.keys),
        }),
        Ok((ptr, memory)) => match (run.state.disqualified, memory) {
            (Some(d), _) => Ok(RunModel { outcome: OutcomeModel::Disqualified(d), keys: distinct(run.state.keys) }),
            (None, None) => Err(ProbeFault::NoMemory),
            (None, Some(m)) => Ok(RunModel { outcome: response_outcome(m, ptr), keys: distinct(run.state.keys) }),
        },
    }
}

/// Whether a result is the one meant.
pub open spec fn run_agrees(r: Result<RunResult, ProbeError>, m: Result<RunModel, ProbeFault>) -> bool {
    match (r, m) {
        (Ok(r), Ok(m)) => r.model() == m,
        (Err(e), Err(x)) => e.model() == x,
        _ => false,
    }
}

/// Reads off what a run of `__execute` came to.
pub fn finish(run: Finished) -> (r: Result<RunResult, ProbeError>)
    ensures
        run_agrees(r, finished(run.model())),
        run.end matches Err(GuestFault::Instantiation(s)) ==> r == Err::<RunResult, ProbeError>(ProbeError::Instantiation(s)),
        run.end matches Err(GuestFault::Start(s)) ==> r == Err::<RunResult, ProbeError>(ProbeError::Instantiation(s)),
{
    let keys = distinct_keys(&run.state.keys);
    match run.end {
        Err(GuestFault::Instantiation(s)) => Err(ProbeError::Instantiation(s)),
        Err(GuestFault::Start(s)) => Err(ProbeError::Instantiation(s)),
        Err(GuestFault::NoExport) => Err(ProbeError::NoExecute),
        Err(GuestFault::Trap(text)) => match run.state.disqualified {
            Some(d) => Ok(RunResult { outcome: Outcome::Disqualified(d), keys }),
            None => Ok(RunResult { outcome: Outcome::Trap(text), keys }),
        },
        Ok((ptr, memory)) => {
            if let Some(d) = run.state.disqualified {
                return Ok(RunResult { outcome: Outcome::Disqualified(d), keys });
            }
            match memory {
                None => Err(ProbeError::NoMemory),
                Some(m) => Ok(RunResult { outcome: read_response(m.as_slice(), ptr), keys }),
            }
        }
    }
}

/// A compiled contract, ready to be probed.
pub struct Prober {
    pub(crate) module: Module,
    pub(crate) fuel: u64,
}

/// The host's state at the start of a run.
pub open spec fn start_state(o: OracleModel, opcode: u128, args: Seq<u128>) -> HostModel {
    HostModel {
        storage: o.storage,
        height: o.height,
        context: bytes::words_bytes(context_words(o, opcode, args)),
        keys: Seq::empty(),
        disqualified: None,
    }
}

/// What a [`Prober`] is, as far as its runs depend on it.
pub ghost struct ProberModel {
    pub program: Program,
    pub fuel: u64,
}

impl ProberModel {
    /// What a run comes to.
    pub open spec fn outcome(self, opcode: u128, args: Seq<u128>, o: OracleModel) -> Result<RunModel, ProbeFault> {
        match link::export_run(self.program, self.fuel, start_state(o, opcode, args), true, "__execute"@) {
            Err(SetupError::Fuel) => Err(ProbeFault::Fuel),
            Err(SetupError::Link(LinkError::Memory)) => Err(ProbeFault::ImportedMemory),
            Err(SetupError::Link(_)) => Err(ProbeFault::ImportedTable),
            Ok(run) => finished(run),
        }
    }
}

impl Prober {
    /// The bytes that are probed, and whether fuel is metered.
    pub open(crate) spec fn source(self) -> (Seq<u8>, bool) {
        link::module_source(self.module)
    }

    /// The fuel of every run.
    pub open(crate) spec fn fuel(self) -> u64 {
        self.fuel
    }

    pub open(crate) spec fn model(self) -> ProberModel {
        ProberModel { program: link::program_of(self.module), fuel: self.fuel }
    }

    pub fn new(wasm: &[u8], fuel: u64) -> (r: Result<Prober, ProbeError>)
        ensures
            match r {
                Ok(p) => link::compilation(wasm@) is Ok && p.source() == (wasm@, true) && p.fuel() == fuel,
                Err(e) => link::compilation(wasm@) matches Err(s) && e.model() == ProbeFault::InvalidWasm(s),
            },
    {
        match compile(wasm) {
            Ok(module) => Ok(Prober { module, fuel }),
            Err(e) => Err(ProbeError::InvalidWasm(e)),
        }
    }

    /// Execute the view once (fresh instance) against the oracle.
    pub fn run(&self, opcode: u128, args: &[u128], oracle: &Oracle) -> (r: Result<RunResult, ProbeError>)
        ensures
            run_agrees(r, self.model().outcome(opcode, args@, oracle.model())),
    {
        let state = ProbeState {
            storage: copy_map(&oracle.storage),
            height: oracle.height,
            context: oracle.context_bytes(opcode, args),
            keys: Vec::new(),
            disqualified: None,
        };
        assert(state.model().keys =~= Seq::empty());
        assert(state.model() == start_state(oracle.model(), opcode, args@));
        match call_export(&self.module, self.fuel, state, true, "__execute") {
            Err(SetupError::Fuel) => Err(ProbeError::Fuel),
            Err(SetupError::Link(LinkError::Memory)) => Err(ProbeError::ImportedMemory),
            Err(SetupError::Link(_)) => Err(ProbeError::ImportedTable),
            Ok(run) => finish(run),
        }
    }
}

/// Probers of the same integer code, with the same fuel, see the same runs.
pub proof fn lemma_probers_agree(a: Prober, b: Prober)
    requires
        a.source() == b.source(),
        a.fuel() == b.fuel(),
        link::integer_only(a.source().0),
    ensures
        a.model() == b.model(),
{
    link::lemma_same_program(a.module, b.module);
}

} // verus!
