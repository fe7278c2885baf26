//! Running a compiled contract in the wasmi interpreter.
//!
//! The interpreter itself is outside: a [`guest_run`] says no more of it than that
//! it does the same again from the same start. What the host does for the contract
//! is [`host_dispatch`].
use vstd::prelude::*;
use wasmi::{Caller, Extern, Linker, Module, Store, Val};
use crate::analysis::lift::machine;
use crate::analysis::response;
use crate::analysis::response::read_num;
use crate::bytes;
use crate::bytes::{copy_bytes, cut, encode_le, stored_value, ByteMap};
use crate::text;
use crate::text::{push_decimal, same_text};

verus! {

#[verifier::external_type_specification]
#[verifier::external_body]
pub struct ExModule(wasmi::Module);

#[verifier::external_type_specification]
#[verifier::external_body]
#[verifier::reject_recursive_types(T)]
pub struct ExStore<T>(wasmi::Store<T>);

#[verifier::external_type_specification]
#[verifier::external_body]
#[verifier::reject_recursive_types(T)]
pub struct ExLinker<T>(wasmi::Linker<T>);

#[verifier::external_type_specification]
#[verifier::external_body]
#[verifier::reject_recursive_types(T)]
pub struct ExCaller<'a, T>(wasmi::Caller<'a, T>);

#[verifier::external_type_specification]
#[verifier::external_body]
pub struct ExVal(wasmi::Val);

#[verifier::external_type_specification]
#[verifier::external_body]
pub struct ExWasmError(wasmi::Error);

/* ─────────────── the host's state ─────────────── */

/// What the host keeps for one run of a contract.
pub struct ProbeState {
    pub storage: ByteMap<Vec<u8>>,
    pub height: u64,
    pub context: Vec<u8>,
    /// Storage keys in the order of the requests.
    pub keys: Vec<Vec<u8>>,
    /// The first facility used that a plan cannot model.
    pub disqualified: Option<&'static str>,
}

/// What a [`ProbeState`] is.
pub ghost struct HostModel {
    pub storage: Map<Seq<u8>, Seq<u8>>,
    pub height: u64,
    pub context: Seq<u8>,
    pub keys: Seq<Seq<u8>>,
    pub disqualified: Option<&'static str>,
}

/// What a list of keys is.
pub open spec fn key_list(keys: Seq<Vec<u8>>) -> Seq<Seq<u8>> {
    Seq::new(keys.len(), |i: int| keys[i]@)
}

impl ProbeState {
    pub open spec fn model(self) -> HostModel {
        HostModel {
            storage: bytes::bytes_map(self.storage.map()),
            height: self.height,
            context: self.context@,
            keys: key_list(self.keys@),
            disqualified: self.disqualified,
        }
    }
}

/* ─────────────── passback buffers ─────────────── */

/// Why a pointer leads to no buffer.
#[derive(Debug, Clone, Copy, PartialEq, Eq, Structural)]
pub enum PassbackError {
    Pointer(usize),
    Length(usize),
}

/// The buffer at `at`: its length stands in the four bytes before it, little-endian.
pub open spec fn passback(memory: Seq<u8>, at: usize) -> Result<Seq<u8>, PassbackError> {
    if at < 4 || at > memory.len() {
        Err(PassbackError::Pointer(at))
    } else {
        let len = response::num_at(memory, at - 4, 4);
        if at + len > memory.len() {
            Err(PassbackError::Length(len as usize))
        } else {
            Ok(memory.subrange(at as int, at + len))
        }
    }
}

/// Reads the buffer at `at`.
pub fn read_passback(memory: &[u8], at: usize) -> (r: Result<Vec<u8>, PassbackError>)
    ensures
        match (r, passback(memory@, at)) {
            (Ok(b), Ok(s)) => b@ == s,
            (Err(x), Err(y)) => x == y,
            _ => false,
        },
{
    if at < 4 || at > memory.len() {
        return Err(PassbackError::Pointer(at));
    }
    let len: u128 = read_num(memory, at - 4, 4);
    proof {
        bytes::lemma_pow256_16();
    }
    let room: usize = memory.len() - at;
    if len > room as u128 {
        return Err(PassbackError::Length(len as usize));
    }
    Ok(cut(memory, at, at + len as usize))
}

pub open spec fn passback_text(e: PassbackError) -> Seq<char> {
    match e {
        PassbackError::Pointer(at) => "probe: passback pointer "@ + text::decimal(at as int) + " out of bounds"@,
        PassbackError::Length(len) => "probe: passback length "@ + text::decimal(len as int) + " out of bounds"@,
    }
}

impl PassbackError {
    /// What went wrong, in words.
    pub fn message(&self) -> (r: String)
        ensures
            r@ == passback_text(*self),
    {
        let (head, n): (&str, usize) = match self {
            PassbackError::Pointer(at) => ("probe: passback pointer ", *at),
            PassbackError::Length(len) => ("probe: passback length ", *len),
        };
        let mut out = String::from_str(head);
        push_decimal(&mut out, n as u128);
        out.append(" out of bounds");
        out
    }
}

/* ─────────────── values of the guest ─────────────── */

/// A value that crosses the border, as far as the host looks at it.
pub enum WasmValue {
    I32(i32),
    I64(i64),
    Other,
}

/// What a wasmi value holds.
pub uninterp spec fn value_of(v: Val) -> WasmValue;

/// Looks into a `wasmi::Val`: the number of an `I32` or `I64`, nothing of another.
#[verifier::external_body]
fn read_value(v: &Val) -> (r: WasmValue)
    ensures
        r == value_of(*v),
{
    match v {
        Val::I32(x) => WasmValue::I32(*x),
        Val::I64(x) => WasmValue::I64(*x),
        _ => WasmValue::Other,
    }
}

/// Makes a `wasmi::Val::I32`.
#[verifier::external_body]
fn i32_value(x: i32) -> (r: Val)
    ensures
        value_of(r) == WasmValue::I32(x),
{
    Val::I32(x)
}

/// Makes a `wasmi::Val::I64`.
#[verifier::external_body]
fn i64_value(x: i64) -> (r: Val)
    ensures
        value_of(r) == WasmValue::I64(x),
{
    Val::I64(x)
}

/// Copies a value by `wasmi::Val::clone`, which keeps the variant and what it holds.
#[verifier::external_body]
fn copy_value(v: &Val) -> (r: Val)
    ensures
        r == *v,
{
    v.clone()
}

/// The text that a wasmi error prints.
pub uninterp spec fn error_text(e: wasmi::Error) -> Seq<char>;

/// Makes an error of a message, by `wasmi::Error::new`: the error prints the message.
#[verifier::external_body]
fn host_error(message: &str) -> (r: wasmi::Error)
    ensures
        error_text(r) == message@,
{
    wasmi::Error::new(message)
}

/// The i32 argument at a position, or 0.
pub open spec fn argument(params: Seq<Val>, i: int) -> i32 {
    if i < params.len() {
        match value_of(params[i]) {
            WasmValue::I32(v) => v,
            WasmValue::I64(v) => v as i32,
            WasmValue::Other => 0,
        }
    } else {
        0
    }
}

/// i32 argument at position `i`, or 0.
fn arg_i32(params: &[Val], i: usize) -> (r: i32)
    ensures
        r == argument(params@, i as int),
{
    if i < params.len() {
        match read_value(&params[i]) {
            WasmValue::I32(v) => v,
            WasmValue::I64(v) => v as i32,
            WasmValue::Other => 0,
        }
    } else {
        0
    }
}

/// Whether a result slot took the value it was given: a slot of another type keeps
/// what it holds.
pub open spec fn slot_takes(before: Val, after: Val, value: Option<i32>) -> bool {
    match (value, value_of(before)) {
        (Some(v), WasmValue::I32(_)) => value_of(after) == WasmValue::I32(v),
        (Some(v), WasmValue::I64(_)) => value_of(after) == WasmValue::I64(v as i64),
        _ => after == before,
    }
}

/// The result slots with the declared defaults in them.
pub open spec fn defaulted(slots: Seq<Val>, defaults: Seq<Val>) -> Seq<Val> {
    Seq::new(slots.len(), |i: int| if i < defaults.len() { defaults[i] } else { slots[i] })
}

/// Whether the slots hold the declared defaults, and the value returned where they
/// expect it.
pub open spec fn slots_set(before: Seq<Val>, defaults: Seq<Val>, value: Option<i32>, after: Seq<Val>) -> bool {
    let base = defaulted(before, defaults);
    &&& after.len() == before.len()
    &&& forall|i: int| 0 <= i < after.len() ==> slot_takes(base[i], #[trigger] after[i], value)
}

fn set_defaults(outputs: &mut [Val], defaults: &[Val])
    ensures
        final(outputs)@ == defaulted(old(outputs)@, defaults@),
{
    let ghost before = outputs@;
    let total: usize = outputs.len();
    let n: usize = if defaults.len() < total { defaults.len() } else { total };
    for i in 0..n
        invariant
            n <= defaults@.len(),
            n <= outputs@.len(),
            outputs@.len() == before.len(),
            forall|j: int| 0 <= j < before.len() ==> #[trigger] outputs@[j] == if j < i { defaults@[j] } else { before[j] },
    {
        outputs[i] = copy_value(&defaults[i]);
    }
    assert(outputs@ =~= defaulted(before, defaults@));
}

/// Write `value` to every result slot that expects it, which is every integer. The
/// results are already the declared defaults.
fn set_result_i32(outputs: &mut [Val], value: i32)
    ensures
        final(outputs)@.len() == old(outputs)@.len(),
        forall|i: int| 0 <= i < old(outputs)@.len() ==> slot_takes(old(outputs)@[i], #[trigger] final(outputs)@[i], Some(value)),
{
    let ghost before = outputs@;
    let n: usize = outputs.len();
    for i in 0..n
        invariant
            n == outputs@.len() == before.len(),
            forall|j: int| 0 <= j < i ==> slot_takes(before[j], #[trigger] outputs@[j], Some(value)),
            forall|j: int| i <= j < n ==> #[trigger] outputs@[j] == before[j],
    {
        assert(outputs@[i as int] == before[i as int]);
        match read_value(&outputs[i]) {
            WasmValue::I32(_) => {
                outputs[i] = i32_value(value);
            }
            WasmValue::I64(_) => {
                outputs[i] = i64_value(value as i64);
            }
            WasmValue::Other => {}
        }
    }
}

/* ─────────────── the calling guest ─────────────── */

/// The memory that the calling contract exports, if it does.
pub uninterp spec fn guest_memory(c: Caller<'static, ProbeState>) -> Option<Seq<u8>>;

/// The host's state during the call.
pub uninterp spec fn guest_state(c: Caller<'static, ProbeState>) -> HostModel;

/// The memory exported under the name `memory`, by `wasmi::Caller::get_export` and
/// `wasmi::Memory::data`.
#[verifier::external_body]
fn memory_of<'a>(caller: &'a Caller<'_, ProbeState>) -> (r: Option<&'a [u8]>)
    ensures
        match guest_memory(*caller) {
            Some(m) => r matches Some(s) && s@ == m,
            None => r is None,
        },
{
    let memory = caller.get_export("memory").and_then(Extern::into_memory)?;
    Some(memory.data(caller))
}

/// Writes into the exported memory, by `wasmi::Memory::write`: those bytes change,
/// and nothing else.
#[verifier::external_body]
fn write_memory(caller: &mut Caller<'_, ProbeState>, at: usize, data: &[u8])
    requires
        guest_memory(*old(caller)) matches Some(m) && at + data@.len() <= m.len(),
    ensures
        guest_memory(*old(caller)) matches Some(m) && guest_memory(*final(caller)) == Some(machine::written(m, at as int, data@)),
        guest_state(*final(caller)) == guest_state(*old(caller)),
{
    if let Some(memory) = caller.get_export("memory").and_then(Extern::into_memory) {
        let _ = memory.write(caller, at, data);
    }
}

/// The host's state, by `wasmi::Caller::data`.
#[verifier::external_body]
fn state_of<'a>(caller: &'a Caller<'_, ProbeState>) -> (r: &'a ProbeState)
    ensures
        r.model() == guest_state(*caller),
{
    caller.data()
}

/// The host's state, to be changed, by `wasmi::Caller::data_mut`.
#[verifier::external_body]
fn state_mut<'a>(caller: &'a mut Caller<'_, ProbeState>) -> (r: &'a mut ProbeState)
    ensures
        r.model() == guest_state(*old(caller)),
        guest_state(*final(caller)) == final(r).model(),
        guest_memory(*final(caller)) == guest_memory(*old(caller)),
{
    caller.data_mut()
}

/// What a host function comes to: its i32 result if it has one, or its error.
pub ghost struct HostEffect {
    pub result: Result<Option<i32>, Seq<char>>,
    pub memory: Option<Seq<u8>>,
    pub state: HostModel,
}

/// The name under which a facility that plans cannot model is reported.
pub open spec fn disqualifier(name: Seq<char>) -> &'static str {
    if name == "__call"@ {
        "__call"
    } else if name == "__staticcall"@ {
        "__staticcall"
    } else if name == "__delegatecall"@ {
        "__delegatecall"
    } else if name == "__request_transaction"@ || name == "__load_transaction"@ {
        "transaction"
    } else if name == "__request_block"@ || name == "__load_block"@ {
        "block"
    } else if name == "__balance"@ {
        "__balance"
    } else if name == "__sequence"@ {
        "__sequence"
    } else if name == "__fuel"@ {
        "__fuel"
    } else if name == "__returndatacopy"@ {
        "__returndatacopy"
    } else {
        "unknown import"
    }
}

/// Copies `data` to the guest's buffer at `ptr`.
pub open spec fn load_effect(memory: Seq<u8>, state: HostModel, ptr: i32, data: Seq<u8>, result: Option<i32>, fault: Seq<char>) -> HostEffect {
    if ptr as usize + data.len() > memory.len() {
        HostEffect { result: Err(fault), memory: Some(memory), state }
    } else {
        HostEffect { result: Ok(result), memory: Some(machine::written(memory, ptr as usize as int, data)), state }
    }
}

/// What the host function `name` does, called with the arguments `a` and `b`.
pub open spec fn host_effect(name: Seq<char>, memory: Option<Seq<u8>>, state: HostModel, a: i32, b: i32) -> HostEffect {
    let nothing = HostEffect { result: Ok(None), memory, state };
    let no_memory = HostEffect { result: Err("probe: contract exports no memory"@), memory, state };
    if name == "__request_context"@ {
        HostEffect { result: Ok(Some(state.context.len() as i32)), ..nothing }
    } else if name == "__load_context"@ {
        match memory {
            None => no_memory,
            Some(m) => load_effect(m, state, a, state.context, Some(state.context.len() as i32), "probe: context buffer out of bounds"@),
        }
    } else if name == "__request_storage"@ {
        match memory {
            None => no_memory,
            Some(m) => match passback(m, a as usize) {
                Err(e) => HostEffect { result: Err(passback_text(e)), ..nothing },
                Ok(key) => HostEffect {
                    result: Ok(Some(bytes::value_at(state.storage, key).len() as i32)),
                    memory,
                    state: HostModel { keys: state.keys.push(key), ..state },
                },
            },
        }
    } else if name == "__load_storage"@ {
        match memory {
            None => no_memory,
            Some(m) => match passback(m, a as usize) {
                Err(e) => HostEffect { result: Err(passback_text(e)), ..nothing },
                Ok(key) => {
                    let value = bytes::value_at(state.storage, key);
                    load_effect(m, state, b, value, Some(value.len() as i32), "probe: storage buffer out of bounds"@)
                }
            },
        }
    } else if name == "__height"@ {
        match memory {
            None => no_memory,
            Some(m) => load_effect(m, state, a, bytes::le_bytes(state.height as int, 8), None, "probe: height buffer out of bounds"@),
        }
    } else if name == "__log"@ {
        nothing
    } else if name == "abort"@ {
        HostEffect { result: Err("contract abort"@), ..nothing }
    } else {
        HostEffect {
            state: HostModel {
                disqualified: match state.disqualified {
                    None => Some(disqualifier(name)),
                    Some(d) => Some(d),
                },
                ..state
            },
            ..nothing
        }
    }
}

fn disqualifier_name(name: &str) -> (r: &'static str)
    ensures
        r == disqualifier(name@),
{
    if same_text(name, "__call") {
        "__call"
    } else if same_text(name, "__staticcall") {
        "__staticcall"
    } else if same_text(name, "__delegatecall") {
        "__delegatecall"
    } else if same_text(name, "__request_transaction") || same_text(name, "__load_transaction") {
        "transaction"
    } else if same_text(name, "__request_block") || same_text(name, "__load_block") {
        "block"
    } else if same_text(name, "__balance") {
        "__balance"
    } else if same_text(name, "__sequence") {
        "__sequence"
    } else if same_text(name, "__fuel") {
        "__fuel"
    } else if same_text(name, "__returndatacopy") {
        "__returndatacopy"
    } else {
        "unknown import"
    }
}

/// Whether `n` bytes at `ptr` lie in the guest's memory.
fn fits(caller: &Caller<'_, ProbeState>, ptr: i32, n: usize) -> (r: Option<bool>)
    ensures
        match guest_memory(*caller) {
            Some(m) => r == Some(ptr as usize + n <= m.len()),
            None => r is None,
        },
{
    match memory_of(caller) {
        None => None,
        Some(m) => {
            let total: usize = m.len();
            Some(n <= total && ptr as usize <= total - n)
        }
    }
}

/// Copies `data` to the guest's buffer at `ptr`.
fn load(caller: &mut Caller<'_, ProbeState>, ptr: i32, data: &[u8], fault: &str) -> (r: Result<(), wasmi::Error>)
    ensures
        match guest_memory(*old(caller)) {
            None => r matches Err(e) && error_text(e) == "probe: contract exports no memory"@
                && guest_memory(*final(caller)) is None
                && guest_state(*final(caller)) == guest_state(*old(caller)),
            Some(m) => {
                let effect = load_effect(m, guest_state(*old(caller)), ptr, data@, None, fault@);
                &&& guest_memory(*final(caller)) == effect.memory
                &&& guest_state(*final(caller)) == effect.state
                &&& match r {
                    Ok(()) => effect.result is Ok,
                    Err(e) => effect.result == Err::<Option<i32>, Seq<char>>(error_text(e)),
                }
            }
        },
{
    match fits(caller, ptr, data.len()) {
        None => Err(host_error("probe: contract exports no memory")),
        Some(false) => Err(host_error(fault)),
        Some(true) => {
            write_memory(caller, ptr as usize, data);
            Ok(())
        }
    }
}

/// The key at `ptr` in the guest's memory.
fn key_at(caller: &Caller<'_, ProbeState>, ptr: i32) -> (r: Result<Vec<u8>, wasmi::Error>)
    ensures
        match guest_memory(*caller) {
            None => r matches Err(e) && error_text(e) == "probe: contract exports no memory"@,
            Some(m) => match (r, passback(m, ptr as usize)) {
                (Ok(k), Ok(s)) => k@ == s,
                (Err(e), Err(p)) => error_text(e) == passback_text(p),
                _ => false,
            },
        },
{
    match memory_of(caller) {
        None => Err(host_error("probe: contract exports no memory")),
        Some(m) => match read_passback(m, ptr as usize) {
            Ok(k) => Ok(k),
            Err(e) => Err(host_error(e.message().as_str())),
        },
    }
}

/// The name-keyed host implementation, signature-agnostic: it reads i32 args
/// positionally and writes an i32 result when the declared signature has one.
pub fn host_dispatch(
    name: &str,
    caller: &mut Caller<'_, ProbeState>,
    params: &[Val],
    outputs: &mut [Val],
    default_results: &[Val],
) -> (r: Result<(), wasmi::Error>)
    ensures
        ({
            let effect = host_effect(
                name@,
                guest_memory(*old(caller)),
                guest_state(*old(caller)),
                argument(params@, 0),
                argument(params@, 1),
            );
            &&& guest_memory(*final(caller)) == effect.memory
            &&& guest_state(*final(caller)) == effect.state
            &&& match (r, effect.result) {
                (Ok(()), Ok(v)) => slots_set(old(outputs)@, default_results@, v, final(outputs)@),
                (Err(e), Err(t)) => error_text(e) == t && slots_set(old(outputs)@, default_results@, None, final(outputs)@),
                _ => false,
            }
        }),
{
    // start from declared-default results
    set_defaults(outputs, default_results);
    if same_text(name, "__request_context") {
        let len: i32 = state_of(caller).context.len() as i32;
        set_result_i32(outputs, len);
        return Ok(());
    }
    if same_text(name, "__load_context") {
        let context = copy_bytes(state_of(caller).context.as_slice());
        match load(caller, arg_i32(params, 0), context.as_slice(), "probe: context buffer out of bounds") {
            Err(e) => {
                return Err(e);
            }
            Ok(()) => {}
        }
        set_result_i32(outputs, context.len() as i32);
        return Ok(());
    }
    if same_text(name, "__request_storage") {
        let key = match key_at(caller, arg_i32(params, 0)) {
            Err(e) => {
                return Err(e);
            }
            Ok(key) => key,
        };
        let state = state_mut(caller);
        let value = stored_value(&state.storage, key.as_slice());
        let ghost before = key_list(state.keys@);
        state.keys.push(key);
        assert(key_list(state.keys@) =~= before.push(key@));
        set_result_i32(outputs, value.len() as i32);
        return Ok(());
    }
    if same_text(name, "__load_storage") {
        let key = match key_at(caller, arg_i32(params, 0)) {
            Err(e) => {
                return Err(e);
            }
            Ok(key) => key,
        };
        let value = stored_value(&state_of(caller).storage, key.as_slice());
        match load(caller, arg_i32(params, 1), value.as_slice(), "probe: storage buffer out of bounds") {
            Err(e) => {
                return Err(e);
            }
            Ok(()) => {}
        }
        set_result_i32(outputs, value.len() as i32);
        return Ok(());
    }
    if same_text(name, "__height") {
        let height = encode_le(state_of(caller).height as u128, 8);
        return load(caller, arg_i32(params, 0), height.as_slice(), "probe: height buffer out of bounds");
    }
    if same_text(name, "__log") {
        return Ok(());
    }
    if same_text(name, "abort") {
        return Err(host_error("contract abort"));
    }
    // Everything else (extcalls, tx/block access, balances, sequence, fuel,
    // returndata, and any unknown host func) is out of a plan's reach; using it
    // disqualifies the method (default results returned).
    let state = state_mut(caller);
    if state.disqualified.is_none() {
        state.disqualified = Some(disqualifier_name(name));
    }
    Ok(())
}

/// A host function that does nothing but return the declared defaults.
pub fn stub_results(outputs: &mut [Val], default_results: &[Val]) -> (r: Result<(), wasmi::Error>)
    ensures
        r is Ok,
        final(outputs)@ == defaulted(old(outputs)@, default_results@),
{
    set_defaults(outputs, default_results);
    Ok(())
}

} // verus!
