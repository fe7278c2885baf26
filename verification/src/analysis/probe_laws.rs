//! What the probing host, the responses it reads and the search for keys promise.
use vstd::prelude::*;
use crate::analysis::guest;
use crate::analysis::guest::{HostModel, PassbackError};
use crate::analysis::host;
use crate::analysis::host::{OracleModel, OutcomeModel, ProbeFault};
use crate::analysis::lift::machine;
use crate::analysis::link;
use crate::analysis::link::{FaultModel, GuestRun, ImportKind, ImportModel, Role};
use crate::analysis::response;
use crate::analysis::response::ResponseError;
use crate::bytes;

verus! {

/* ─────────────── the context of a call ─────────────── */

proof fn lemma_transfers(incoming: Seq<(u128, u128, u128)>, i: int)
    ensures
        host::transfer_words(incoming).len() == 3 * incoming.len(),
        0 <= i < incoming.len() ==> {
            &&& host::transfer_words(incoming)[3 * i] == incoming[i].0
            &&& host::transfer_words(incoming)[3 * i + 1] == incoming[i].1
            &&& host::transfer_words(incoming)[3 * i + 2] == incoming[i].2
        },
    decreases incoming.len(),
{
    if incoming.len() > 0 {
        lemma_transfers(incoming.drop_last(), i);
    }
}

/// The words of a context, in order: the contract's own id, the caller's, the output, the
/// number of transfers and the transfers, three words each, the opcode, and the
/// arguments.
pub proof fn lemma_context(o: OracleModel, opcode: u128, args: Seq<u128>, i: int)
    requires
        o.incoming.len() <= usize::MAX,
    ensures
        host::context_words(o, opcode, args).len() == 7 + 3 * o.incoming.len() + args.len(),
        host::context_words(o, opcode, args)[0] == o.myself.0,
        host::context_words(o, opcode, args)[1] == o.myself.1,
        host::context_words(o, opcode, args)[2] == o.caller.0,
        host::context_words(o, opcode, args)[3] == o.caller.1,
        host::context_words(o, opcode, args)[4] == o.vout,
        host::context_words(o, opcode, args)[5] == o.incoming.len(),
        0 <= i < o.incoming.len() ==> {
            &&& host::context_words(o, opcode, args)[6 + 3 * i] == o.incoming[i].0
            &&& host::context_words(o, opcode, args)[7 + 3 * i] == o.incoming[i].1
            &&& host::context_words(o, opcode, args)[8 + 3 * i] == o.incoming[i].2
        },
        host::context_words(o, opcode, args)[(6 + 3 * o.incoming.len()) as int] == opcode,
        0 <= i < args.len() ==> host::context_words(o, opcode, args)[7 + 3 * o.incoming.len() + i] == args[i],
{
    lemma_transfers(o.incoming, i);
}

/// A run starts from the world's storage and height and the context of its call, with no
/// key requested and nothing held against it.
pub proof fn lemma_start(o: OracleModel, opcode: u128, args: Seq<u128>)
    ensures
        host::start_state(o, opcode, args).storage == o.storage,
        host::start_state(o, opcode, args).height == o.height,
        host::start_state(o, opcode, args).context == bytes::words_bytes(host::context_words(o, opcode, args)),
        host::start_state(o, opcode, args).keys.len() == 0,
        host::start_state(o, opcode, args).disqualified is None,
{
}

/* ─────────────── buffers ─────────────── */

/// A buffer is what stands behind its length. A pointer below 4 or past the memory leads
/// to none, and neither does one in front of fewer bytes than the length says.
pub proof fn lemma_passback(ahead: Seq<u8>, data: Seq<u8>, behind: Seq<u8>, len: u32, at: usize)
    requires
        ahead.len() + 4 + data.len() + behind.len() <= usize::MAX,
    ensures
        data.len() == len ==> guest::passback(ahead + bytes::le_bytes(len as int, 4) + data + behind, (ahead.len() + 4) as usize) == Ok::<
            Seq<u8>,
            PassbackError,
        >(data),
        data.len() < len ==> guest::passback(ahead + bytes::le_bytes(len as int, 4) + data, (ahead.len() + 4) as usize) == Err::<
            Seq<u8>,
            PassbackError,
        >(PassbackError::Length(len as usize)),
        at < 4 || at > ahead.len() ==> guest::passback(ahead, at) == Err::<Seq<u8>, PassbackError>(PassbackError::Pointer(at)),
{
    bytes::lemma_le_bytes_len(len as int, 4);
    bytes::lemma_pow256_16();
    bytes::lemma_le_round_trip(len as int, 4);
    let at = (ahead.len() + 4) as usize;
    let head = bytes::le_bytes(len as int, 4);
    let m = ahead + head + data + behind;
    assert(m.subrange(at - 4, at - 4 + 4) =~= head);
    if data.len() == len {
        assert(m.subrange(at as int, at + len) =~= data);
    }
    let n = ahead + head + data;
    assert(n.subrange(at - 4, at - 4 + 4) =~= head);
}

/* ─────────────── responses ─────────────── */

/// Entries one behind the other, each behind its length in 4 bytes.
pub open spec fn entry_bytes(entries: Seq<Seq<u8>>) -> Seq<u8>
    decreases entries.len(),
{
    if entries.len() == 0 {
        Seq::empty()
    } else {
        entry_bytes(entries.drop_last()) + bytes::le_bytes(entries.last().len() as int, 4) + entries.last()
    }
}

/// A response: the transfers behind their number, the keys and values of a storage map
/// behind the number of its pairs, and the data.
pub open spec fn response_bytes(transfers: Seq<u8>, entries: Seq<Seq<u8>>, data: Seq<u8>) -> Seq<u8> {
    bytes::le_bytes((transfers.len() / 48) as int, 16) + transfers + bytes::le_bytes((entries.len() / 2) as int, 4) + entry_bytes(entries)
        + data
}

proof fn lemma_entries(entries: Seq<Seq<u8>>, b: Seq<u8>, pos: int, k: nat)
    requires
        k <= entries.len(),
        0 <= pos,
        pos + entry_bytes(entries.take(k as int)).len() <= b.len(),
        b.subrange(pos, pos + entry_bytes(entries.take(k as int)).len()) == entry_bytes(entries.take(k as int)),
        forall|i: int| 0 <= i < entries.len() ==> (#[trigger] entries[i]).len() <= u32::MAX,
    ensures
        response::skip_entries(b, pos, k) == Some(pos + entry_bytes(entries.take(k as int)).len()),
    decreases k,
{
    if k > 0 {
        let some = entries.take(k as int);
        let fewer = entries.take(k - 1);
        assert(some.drop_last() =~= fewer);
        let last = entries[k - 1];
        assert(some.last() == last);
        bytes::lemma_le_bytes_len(last.len() as int, 4);
        bytes::lemma_pow256_16();
        bytes::lemma_le_round_trip(last.len() as int, 4);
        let whole = entry_bytes(some);
        let part = entry_bytes(fewer);
        let head = bytes::le_bytes(last.len() as int, 4);
        assert(whole == part + head + last);
        assert(b.subrange(pos, pos + part.len()) =~= whole.subrange(0, part.len() as int));
        assert(whole.subrange(0, part.len() as int) =~= part);
        lemma_entries(entries, b, pos, (k - 1) as nat);
        let p = pos + part.len();
        assert(b.subrange(p, p + 4) =~= whole.subrange(part.len() as int, part.len() as int + 4));
        assert(whole.subrange(part.len() as int, part.len() as int + 4) =~= head);
    } else {
        assert(entries.take(0) =~= Seq::empty());
    }
}

/// The data of a response is what stands behind its storage map, whatever was
/// transferred and stored, and however much data there is.
pub proof fn lemma_response(transfers: Seq<u8>, entries: Seq<Seq<u8>>, data: Seq<u8>)
    requires
        transfers.len() % 48 == 0,
        transfers.len() <= 48 * 4096,
        entries.len() % 2 == 0,
        entries.len() <= u32::MAX,
        forall|i: int| 0 <= i < entries.len() ==> (#[trigger] entries[i]).len() <= u32::MAX,
    ensures
        response::data_start(response_bytes(transfers, entries, data)) matches Ok(p) && 0 <= p && response_bytes(
            transfers,
            entries,
            data,
        ).subrange(p, response_bytes(transfers, entries, data).len() as int) == data,
{
    let count = (transfers.len() / 48) as int;
    let pairs = (entries.len() / 2) as int;
    bytes::lemma_pow256_16();
    bytes::lemma_le_bytes_len(count, 16);
    bytes::lemma_le_round_trip(count, 16);
    bytes::lemma_le_bytes_len(pairs, 4);
    bytes::lemma_le_round_trip(pairs, 4);
    let b = response_bytes(transfers, entries, data);
    let kept = entry_bytes(entries);
    assert(b.subrange(0, 16) =~= bytes::le_bytes(count, 16));
    let pos = 16 + count * 48;
    assert(count * 48 == transfers.len());
    assert(b.subrange(pos, pos + 4) =~= bytes::le_bytes(pairs, 4));
    assert(entries.take(entries.len() as int) =~= entries);
    assert(b.subrange(pos + 4, pos + 4 + kept.len()) =~= kept);
    lemma_entries(entries, b, pos + 4, entries.len());
    assert((2 * pairs) as nat == entries.len());
    let p = pos + 4 + kept.len();
    assert(b.subrange(p, b.len() as int) =~= data);
}

/// A response too short for a count of transfers, or with more transfers than are
/// plausible, has no data.
pub proof fn lemma_no_response(b: Seq<u8>)
    ensures
        b.len() < 16 ==> response::data_start(b) == Err::<int, ResponseError>(ResponseError::Truncated),
        b.len() >= 16 && bytes::le_num(b.take(16)) > 4096 ==> response::data_start(b) == Err::<int, ResponseError>(
            ResponseError::TransferCount(bytes::le_num(b.take(16)) as u128),
        ),
        b.len() >= 16 && bytes::le_num(b.take(16)) <= 4096 && b.len() < 20 + 48 * bytes::le_num(b.take(16)) ==> response::data_start(b)
            == Err::<int, ResponseError>(ResponseError::StorageMap),
        response::data_start(b) matches Ok(p) ==> 20 <= p <= b.len(),
{
    if b.len() >= 16 {
        assert(b.subrange(0, 16) =~= b.take(16));
        if let Ok(p) = response::data_start(b) {
            let pos = 16 + response::num_at(b, 0, 16) * 48;
            lemma_skipped(b, pos + 4, (2 * response::num_at(b, pos, 4)) as nat);
        }
    }
}

proof fn lemma_skipped(b: Seq<u8>, at: int, n: nat)
    ensures
        response::skip_entries(b, at, n) matches Some(p) ==> p >= at,
    decreases n,
{
    if n > 0 {
        lemma_skipped(b, at, (n - 1) as nat);
    }
}

/* ─────────────── how a run ends ─────────────── */

/// A run that used what a plan cannot model is disqualified, whether it then trapped or
/// returned; only another trap counts as one. A run that returns a response succeeds with
/// the response's data.
pub proof fn lemma_finished(run: GuestRun, d: &'static str, s: Seq<char>, ptr: i32, m: Seq<u8>, b: Seq<u8>, p: int)
    ensures
        (run.end is Ok || run.end matches Err(FaultModel::Trap(_))) && run.state.disqualified == Some(d) ==> (host::finished(run) matches Ok(
            r,
        ) && r.outcome == OutcomeModel::Disqualified(d)),
        run.end == Err::<(i32, Option<Seq<u8>>), FaultModel>(FaultModel::Trap(s)) && run.state.disqualified is None ==> (host::finished(run)
            matches Ok(r) && r.outcome == OutcomeModel::Trap(s)),
        run.end == Ok::<(i32, Option<Seq<u8>>), FaultModel>((ptr, Some(m))) && run.state.disqualified is None && guest::passback(
            m,
            ptr as usize,
        ) == Ok::<Seq<u8>, PassbackError>(b) && response::data_start(b) == Ok::<int, ResponseError>(p) ==> (host::finished(run) matches Ok(
            r,
        ) && r.outcome == OutcomeModel::Success(b.subrange(p, b.len() as int))),
        run.end == Ok::<(i32, Option<Seq<u8>>), FaultModel>((ptr, Some(m))) && run.state.disqualified is None && (guest::passback(
            m,
            ptr as usize,
        ) is Err || response::data_start(guest::passback(m, ptr as usize)->Ok_0) is Err) ==> (host::finished(run) matches Ok(r)
            && r.outcome is Trap),
        run.end == Ok::<(i32, Option<Seq<u8>>), FaultModel>((ptr, None)) && run.state.disqualified is None ==> host::finished(run) == Err::<
            host::RunModel,
            ProbeFault,
        >(ProbeFault::NoMemory),
        run.end == Err::<(i32, Option<Seq<u8>>), FaultModel>(FaultModel::NoExport) ==> host::finished(run) == Err::<
            host::RunModel,
            ProbeFault,
        >(ProbeFault::NoExecute),
        (run.end matches Err(FaultModel::Instantiation) || run.end matches Err(FaultModel::Start(_))) ==> host::finished(run) == Err::<
            host::RunModel,
            ProbeFault,
        >(ProbeFault::Instantiation),
        host::finished(run) matches Ok(r) ==> {
            &&& r.keys.no_duplicates()
            &&& forall|k: Seq<u8>| r.keys.contains(k) <==> run.state.keys.contains(k)
        },
{
    host::lemma_distinct(run.state.keys);
}

/// Keys are reported in the order of their first requests: later requests add behind, and
/// a key that was requested before adds nothing.
pub proof fn lemma_request_order(keys: Seq<Seq<u8>>, more: Seq<Seq<u8>>, k: Seq<u8>)
    ensures
        host::distinct(keys).is_prefix_of(host::distinct(keys + more)),
        keys.contains(k) ==> host::distinct(keys.push(k)) == host::distinct(keys),
        !keys.contains(k) ==> host::distinct(keys.push(k)) == host::distinct(keys).push(k),
    decreases more.len(),
{
    host::lemma_distinct(keys);
    assert(keys.push(k).drop_last() =~= keys);
    if more.len() == 0 {
        assert(keys + more =~= keys);
    } else {
        lemma_request_order(keys, more.drop_last(), k);
        assert((keys + more).drop_last() =~= keys + more.drop_last());
    }
}

/* ─────────────── the functions of the host ─────────────── */

proof fn lemma_host_names()
    ensures
        "__request_context"@.len() == 17 && "__request_context"@[2] == 'r' && "__request_context"@[10] == 'c',
        "__request_storage"@.len() == 17 && "__request_storage"@[2] == 'r' && "__request_storage"@[10] == 's',
        "__load_context"@.len() == 14 && "__load_context"@[7] == 'c',
        "__load_storage"@.len() == 14 && "__load_storage"@[7] == 's',
        "__height"@.len() == 8,
        "__log"@.len() == 5 && "__log"@[0] == '_',
        "abort"@.len() == 5 && "abort"@[0] == 'a',
{
    reveal_strlit("__request_context");
    reveal_strlit("__request_storage");
    reveal_strlit("__load_context");
    reveal_strlit("__load_storage");
    reveal_strlit("__height");
    reveal_strlit("__log");
    reveal_strlit("abort");
}

/// Whether bytes stand in memory at a place, and nothing else of it has changed.
pub open spec fn stands_at(before: Seq<u8>, after: Seq<u8>, at: int, data: Seq<u8>) -> bool {
    &&& after.len() == before.len()
    &&& after.subrange(at, at + data.len()) == data
    &&& forall|i: int| 0 <= i < before.len() && !(at <= i < at + data.len()) ==> after[i] == #[trigger] before[i]
}

proof fn lemma_stands(m: Seq<u8>, at: int, data: Seq<u8>)
    requires
        0 <= at,
        at + data.len() <= m.len(),
    ensures
        stands_at(m, machine::written(m, at, data), at, data),
{
    assert(machine::written(m, at, data).subrange(at, at + data.len()) =~= data);
}

/// A request for a key gives the length of what is stored there and notes the key; a load
/// of the key copies what is stored there to the buffer, and notes nothing. Both leave
/// the rest of the host's state as it is, and a load the rest of the memory.
pub proof fn lemma_storage_calls(m: Seq<u8>, state: HostModel, a: i32, b: i32, key: Seq<u8>)
    requires
        guest::passback(m, a as usize) == Ok::<Seq<u8>, PassbackError>(key),
    ensures
        ({
            let value = if state.storage.dom().contains(key) { state.storage[key] } else { Seq::empty() };
            let asked = guest::host_effect("__request_storage"@, Some(m), state, a, b);
            let loaded = guest::host_effect("__load_storage"@, Some(m), state, a, b);
            &&& asked.result == Ok::<Option<i32>, Seq<char>>(Some(value.len() as i32))
            &&& asked.memory == Some(m)
            &&& asked.state.keys == state.keys.push(key)
            &&& asked.state.storage == state.storage && asked.state.height == state.height && asked.state.context == state.context
            &&& asked.state.disqualified == state.disqualified
            &&& loaded.state == state
            &&& b as usize + value.len() <= m.len() ==> loaded.result == asked.result && (loaded.memory matches Some(n) && stands_at(
                m,
                n,
                b as usize as int,
                value,
            ))
            &&& b as usize + value.len() > m.len() ==> loaded.result is Err && loaded.memory == Some(m)
        }),
{
    lemma_host_names();
    let value = bytes::value_at(state.storage, key);
    if b as usize + value.len() <= m.len() {
        lemma_stands(m, b as usize as int, value);
    }
}

/// A request or load of a key that stands in no buffer fails and changes nothing.
pub proof fn lemma_bad_key(m: Seq<u8>, state: HostModel, a: i32, b: i32)
    requires
        guest::passback(m, a as usize) is Err,
    ensures
        guest::host_effect("__request_storage"@, Some(m), state, a, b).result is Err,
        guest::host_effect("__request_storage"@, Some(m), state, a, b).state == state,
        guest::host_effect("__request_storage"@, Some(m), state, a, b).memory == Some(m),
        guest::host_effect("__load_storage"@, Some(m), state, a, b).result is Err,
        guest::host_effect("__load_storage"@, Some(m), state, a, b).state == state,
        guest::host_effect("__load_storage"@, Some(m), state, a, b).memory == Some(m),
{
    lemma_host_names();
}

/// The height is written in eight bytes, the context as it is, behind a request for its
/// length; neither changes the host's state. Where the buffer lies outside the memory the
/// call fails.
pub proof fn lemma_world_calls(m: Seq<u8>, state: HostModel, a: i32, b: i32)
    ensures
        ({
            let height = guest::host_effect("__height"@, Some(m), state, a, b);
            let asked = guest::host_effect("__request_context"@, Some(m), state, a, b);
            let loaded = guest::host_effect("__load_context"@, Some(m), state, a, b);
            &&& height.state == state && asked.state == state && loaded.state == state
            &&& asked.result == Ok::<Option<i32>, Seq<char>>(Some(state.context.len() as i32)) && asked.memory == Some(m)
            &&& a as usize + 8 <= m.len() ==> height.result == Ok::<Option<i32>, Seq<char>>(None) && (height.memory matches Some(n)
                && stands_at(m, n, a as usize as int, bytes::le_bytes(state.height as int, 8)))
            &&& a as usize + 8 > m.len() ==> height.result is Err && height.memory == Some(m)
            &&& a as usize + state.context.len() <= m.len() ==> loaded.result == asked.result && (loaded.memory matches Some(n) && stands_at(
                m,
                n,
                a as usize as int,
                state.context,
            ))
            &&& a as usize + state.context.len() > m.len() ==> loaded.result is Err && loaded.memory == Some(m)
        }),
{
    lemma_host_names();
    bytes::lemma_le_bytes_len(state.height as int, 8);
    if a as usize + 8 <= m.len() {
        lemma_stands(m, a as usize as int, bytes::le_bytes(state.height as int, 8));
    }
    if a as usize + state.context.len() <= m.len() {
        lemma_stands(m, a as usize as int, state.context);
    }
}

/// A log does nothing, an abort fails. Any function but these, storage, context and
/// height disqualifies the run, and the first to do so is the one reported.
pub proof fn lemma_other_calls(name: Seq<char>, memory: Option<Seq<u8>>, state: HostModel, a: i32, b: i32)
    ensures
        guest::host_effect("__log"@, memory, state, a, b).result == Ok::<Option<i32>, Seq<char>>(None),
        guest::host_effect("__log"@, memory, state, a, b).state == state,
        guest::host_effect("__log"@, memory, state, a, b).memory == memory,
        guest::host_effect("abort"@, memory, state, a, b).result == Err::<Option<i32>, Seq<char>>("contract abort"@),
        guest::host_effect("abort"@, memory, state, a, b).state == state,
        name != "__request_context"@ && name != "__load_context"@ && name != "__request_storage"@ && name != "__load_storage"@ && name
            != "__height"@ && name != "__log"@ && name != "abort"@ ==> {
            let done = guest::host_effect(name, memory, state, a, b);
            &&& done.result == Ok::<Option<i32>, Seq<char>>(None)
            &&& done.memory == memory
            &&& done.state.disqualified is Some
            &&& state.disqualified is Some ==> done.state == state
            &&& done.state.storage == state.storage && done.state.keys == state.keys
        },
        (name == "__request_context"@ || name == "__load_context"@ || name == "__request_storage"@ || name == "__load_storage"@ || name
            == "__height"@ || name == "__log"@ || name == "abort"@) ==> guest::host_effect(name, memory, state, a, b).state.disqualified
            == state.disqualified,
{
    lemma_host_names();
}

/// What disqualifies a run is reported under the name of the function, transactions and
/// blocks under one name each, and a function that is not known as an unknown import.
pub proof fn lemma_reported()
    ensures
        guest::disqualifier("__call"@) == "__call",
        guest::disqualifier("__staticcall"@) == "__staticcall",
        guest::disqualifier("__delegatecall"@) == "__delegatecall",
        guest::disqualifier("__request_transaction"@) == "transaction",
        guest::disqualifier("__load_transaction"@) == "transaction",
        guest::disqualifier("__request_block"@) == "block",
        guest::disqualifier("__load_block"@) == "block",
        guest::disqualifier("__balance"@) == "__balance",
        guest::disqualifier("__sequence"@) == "__sequence",
        guest::disqualifier("__fuel"@) == "__fuel",
        guest::disqualifier("__returndatacopy"@) == "__returndatacopy",
{
    reveal_strlit("__call");
    reveal_strlit("__staticcall");
    reveal_strlit("__delegatecall");
    reveal_strlit("__request_transaction");
    reveal_strlit("__load_transaction");
    reveal_strlit("__request_block");
    reveal_strlit("__load_block");
    reveal_strlit("__balance");
    reveal_strlit("__sequence");
    reveal_strlit("__fuel");
    reveal_strlit("__returndatacopy");
    assert("__staticcall"@.len() == 12 && "__load_block"@.len() == 12 && "__staticcall"@[2] == 's' && "__load_block"@[2] == 'l');
    assert("__delegatecall"@.len() == 14 && "__request_block"@.len() == 15);
    assert("__request_transaction"@.len() == 21 && "__load_transaction"@.len() == 18);
    assert("__balance"@.len() == 9 && "__sequence"@.len() == 10 && "__fuel"@.len() == 6 && "__call"@.len() == 6);
    assert("__fuel"@[2] == 'f' && "__call"@[2] == 'c');
    assert("__returndatacopy"@.len() == 16);
}

/* ─────────────── imports ─────────────── */

/// Every import is met: a function by the host where a contract is probed and by a stub
/// where it is not, anything else by a default. No two that are met have the same names,
/// and where nothing is probed no two imports may.
pub proof fn lemma_links(imports: Seq<ImportModel>, probing: bool, n: nat, i: int)
    requires
        n <= imports.len(),
        link::links(imports, probing, n) is Ok,
    ensures
        ({
            let linked = link::links(imports, probing, n)->Ok_0;
            &&& linked.len() <= n
            &&& !probing ==> linked.len() == n
            &&& 0 <= i < linked.len() ==> {
                let import = linked[i].import;
                &&& 0 <= import < n
                &&& linked[i].role == if imports[import].kind != ImportKind::Func {
                    Role::Fresh
                } else if probing {
                    Role::Host
                } else {
                    Role::Stub
                }
            }
            &&& 0 <= i < n ==> link::already(imports, linked, i)
            &&& forall|j: int, k: int| 0 <= j < k < linked.len() ==> imports[(#[trigger] linked[j]).import].module
                != imports[(#[trigger] linked[k]).import].module || imports[linked[j].import].name != imports[linked[k].import].name
        }),
    decreases n,
{
    if n > 0 {
        lemma_links(imports, probing, (n - 1) as nat, i);
        let before = link::links(imports, probing, (n - 1) as nat)->Ok_0;
        let linked = link::links(imports, probing, n)->Ok_0;
        if 0 <= i < n - 1 {
            let k = choose|k: int| 0 <= k < before.len() && imports[(#[trigger] before[k]).import].module == imports[i].module
                && imports[before[k].import].name == imports[i].name;
            assert(linked[k] == before[k]);
        }
        if i == n - 1 && !link::already(imports, before, i) {
            assert(linked[before.len() as int].import == i);
        }
        if !link::already(imports, before, n - 1) {
            assert forall|j: int, k: int| 0 <= j < k < linked.len() implies imports[(#[trigger] linked[j]).import].module
                != imports[(#[trigger] linked[k]).import].module || imports[linked[j].import].name != imports[linked[k].import].name by {
                assert(linked[j] == before[j]);
                if k < before.len() {
                    assert(linked[k] == before[k]);
                }
            }
        }
    }
}

} // verus!
