//! Witness-borne inputs.
//!
//! Some payloads are too large for calldata and ride in the reveal transaction's
//! witness instead (an ord-style envelope). What the envelopes of a transaction's
//! inputs hold is read outside; which of them counts is decided here.
use vstd::prelude::*;
use crate::bytes::copy_bytes;

verus! {

/// The first non-empty payload, from an input on.
pub open spec fn payload_from(payloads: Seq<Option<Vec<u8>>>, from: nat) -> Option<Seq<u8>>
    decreases payloads.len() - from,
{
    if from >= payloads.len() {
        None
    } else {
        match payloads[from as int] {
            Some(p) => if p@.len() > 0 { Some(p@) } else { payload_from(payloads, from + 1) },
            None => payload_from(payloads, from + 1),
        }
    }
}

/// Find the first non-empty envelope payload across all inputs. Ordinals
/// conventionally uses input 0, but looping covers the edge cases.
pub fn witness_payload(payloads: &[Option<Vec<u8>>]) -> (r: Option<Vec<u8>>)
    ensures
        match r {
            Some(p) => payload_from(payloads@, 0) == Some(p@),
            None => payload_from(payloads@, 0) is None,
        },
{
    let n: usize = payloads.len();
    for i in 0..n
        invariant
            n == payloads@.len(),
            payload_from(payloads@, 0) == payload_from(payloads@, i as nat),
    {
        if let Some(p) = &payloads[i] {
            if p.len() > 0 {
                return Some(copy_bytes(p.as_slice()));
            }
        }
    }
    None
}

/// A payload that is found is never empty, it is that of an input, and no input before
/// that one has any.
pub proof fn lemma_payload(payloads: Seq<Option<Vec<u8>>>, from: nat) -> (at: int)
    requires
        payload_from(payloads, from) is Some,
    ensures
        from <= at < payloads.len(),
        payloads[at] matches Some(p) && p@.len() > 0 && payload_from(payloads, from) == Some(p@),
        forall|i: int| from <= i < at ==> (#[trigger] payloads[i] matches Some(p) ==> p@.len() == 0),
    decreases payloads.len() - from,
{
    match payloads[from as int] {
        Some(p) => {
            if p@.len() > 0 {
                from as int
            } else {
                lemma_payload(payloads, from + 1)
            }
        }
        None => lemma_payload(payloads, from + 1),
    }
}

/// Without a payload no input has one that holds anything.
pub proof fn lemma_no_payload(payloads: Seq<Option<Vec<u8>>>, from: nat, i: int)
    requires
        from <= i < payloads.len(),
    ensures
        payload_from(payloads, from) is None ==> (payloads[i] matches Some(p) ==> p@.len() == 0),
    decreases payloads.len() - from,
{
    if from < i {
        lemma_no_payload(payloads, from + 1, i);
    }
}

} // verus!
