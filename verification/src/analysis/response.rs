//! The serialized response of a contract call.
use vstd::prelude::*;
use crate::bytes;
use crate::bytes::{cut, decode_le};

verus! {

/// Why the bytes are no response.
#[derive(Debug, Clone, Copy, PartialEq, Eq, Structural)]
pub enum ResponseError {
    /// The transfer count is cut off.
    Truncated,
    /// There are implausibly many transfers.
    TransferCount(u128),
    /// The storage map is cut off at its start.
    StorageMap,
    /// The storage map is cut off at a length.
    StorageEntry,
    /// The storage map runs past the end.
    End,
}

/// The little-endian number in bytes `at..at+width`.
pub open spec fn num_at(b: Seq<u8>, at: int, width: int) -> int {
    bytes::le_num(b.subrange(at, at + width)) as int
}

/// Skips `n` entries, each a 4-byte length and that many bytes.
pub open spec fn skip_entries(b: Seq<u8>, at: int, n: nat) -> Option<int>
    decreases n,
{
    if n == 0 {
        Some(at)
    } else {
        match skip_entries(b, at, (n - 1) as nat) {
            None => None,
            Some(p) => if p + 4 > b.len() {
                None
            } else {
                Some(p + 4 + num_at(b, p, 4))
            },
        }
    }
}

/// Where the data of a response begins: behind the transfer count, the transfers of
/// 48 bytes each, the pair count, and the keys and values of the storage map.
pub open spec fn data_start(b: Seq<u8>) -> Result<int, ResponseError> {
    if b.len() < 16 {
        Err(ResponseError::Truncated)
    } else if num_at(b, 0, 16) > 4096 {
        Err(ResponseError::TransferCount(num_at(b, 0, 16) as u128))
    } else {
        let pos = 16 + num_at(b, 0, 16) * 48;
        if pos + 4 > b.len() {
            Err(ResponseError::StorageMap)
        } else {
            match skip_entries(b, pos + 4, (2 * num_at(b, pos, 4)) as nat) {
                None => Err(ResponseError::StorageEntry),
                Some(p) => if p > b.len() {
                    Err(ResponseError::End)
                } else {
                    Ok(p)
                },
            }
        }
    }
}

proof fn lemma_skip_stopped(b: Seq<u8>, at: int, k: nat, n: nat)
    requires
        k <= n,
        skip_entries(b, at, k) is None,
    ensures
        skip_entries(b, at, n) is None,
    decreases n,
{
    if k < n {
        lemma_skip_stopped(b, at, k, (n - 1) as nat);
    }
}

/// The little-endian number in bytes `at..at+width`.
pub(crate) fn read_num(b: &[u8], at: usize, width: usize) -> (r: u128)
    requires
        at + width <= b@.len(),
        width <= 16,
    ensures
        r == num_at(b@, at as int, width as int),
        r < bytes::pow256(width as nat),
{
    let total: usize = b.len();
    assert(at + width <= total);
    let part = vstd::slice::slice_subrange(b, at, at + width);
    proof {
        bytes::lemma_le_num_bound(part@);
    }
    decode_le(part)
}

/// Where the data of a response begins.
pub fn response_data_start(b: &[u8]) -> (r: Result<usize, ResponseError>)
    ensures
        match r {
            Ok(p) => data_start(b@) == Ok::<int, ResponseError>(p as int) && p <= b@.len(),
            Err(x) => data_start(b@) == Err::<int, ResponseError>(x),
        },
{
    proof {
        bytes::lemma_pow256_16();
    }
    let total: usize = b.len();
    if total < 16 {
        return Err(ResponseError::Truncated);
    }
    let count: u128 = read_num(b, 0, 16);
    if count > 4096 {
        return Err(ResponseError::TransferCount(count));
    }
    let pos: usize = 16 + (count as usize) * 48;
    if total < 4 || pos > total - 4 {
        return Err(ResponseError::StorageMap);
    }
    let pairs: u128 = read_num(b, pos, 4);
    let entries: u128 = 2 * pairs;
    let mut at: u128 = (pos + 4) as u128;
    let ghost start: int = pos + 4;
    for i in 0..entries
        invariant
            entries <= 0x2_0000_0000,
            total == b@.len(),
            total >= 16,
            start >= 0,
            at >= start,
            skip_entries(b@, start, i as nat) == Some(at as int),
            at <= total as int + 0x1_0000_0003,
            bytes::pow256(4) == 0x1_0000_0000,
            data_start(b@) == (match skip_entries(b@, start, entries as nat) {
                None => Err(ResponseError::StorageEntry),
                Some(p) => if p > b@.len() {
                    Err(ResponseError::End)
                } else {
                    Ok(p)
                },
            }),
    {
        if at > (total - 4) as u128 {
            proof {
                lemma_skip_stopped(b@, start, (i + 1) as nat, entries as nat);
            }
            return Err(ResponseError::StorageEntry);
        }
        at = at + 4 + read_num(b, at as usize, 4);
    }
    if at > total as u128 {
        return Err(ResponseError::End);
    }
    Ok(at as usize)
}

/// The data of a response.
pub fn response_data(b: &[u8]) -> (r: Result<Vec<u8>, ResponseError>)
    ensures
        match (r, data_start(b@)) {
            (Ok(v), Ok(p)) => v@ == b@.subrange(p, b@.len() as int),
            (Err(x), Err(y)) => x == y,
            _ => false,
        },
{
    match response_data_start(b) {
        Ok(p) => Ok(cut(b, p, b.len())),
        Err(x) => Err(x),
    }
}

} // verus!
