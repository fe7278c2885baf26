//! Alkanes as a contract sees them: their ids, transfers of them, and the response of
//! a call.
use vstd::prelude::*;
use crate::bytes::copy_bytes;

verus! {

/// The id of an alkane.
#[derive(Debug, Clone, Copy, PartialEq, Eq, Structural)]
pub struct AlkaneId {
    pub block: u128,
    pub tx: u128,
}

/// A transfer of one alkane.
#[derive(Debug, Clone, Copy, PartialEq, Eq, Structural)]
pub struct AlkaneTransfer {
    pub id: AlkaneId,
    pub value: u128,
}

/// Transfers that go together.
#[derive(Debug, PartialEq, Eq)]
pub struct AlkaneTransferParcel(pub Vec<AlkaneTransfer>);

impl AlkaneTransferParcel {
    /// The same transfers, again.
    pub fn copy(&self) -> (r: AlkaneTransferParcel)
        ensures
            r.0@ == self.0@,
    {
        let mut out: Vec<AlkaneTransfer> = Vec::new();
        let n: usize = self.0.len();
        for i in 0..n
            invariant
                n == self.0@.len(),
                out@ == self.0@.take(i as int),
        {
            out.push(self.0[i]);
            assert(out@ =~= self.0@.take(i + 1));
        }
        assert(self.0@.take(n as int) =~= self.0@);
        AlkaneTransferParcel(out)
    }
}

impl Clone for AlkaneTransferParcel {
    fn clone(&self) -> (r: Self)
        ensures
            r.0@ == self.0@,
    {
        self.copy()
    }
}

/// What a call hands back: alkanes, and bytes.
#[derive(Debug, PartialEq, Eq)]
pub struct CallResponse {
    pub alkanes: AlkaneTransferParcel,
    pub data: Vec<u8>,
}

impl Clone for CallResponse {
    fn clone(&self) -> (r: Self)
        ensures
            r.alkanes.0@ == self.alkanes.0@,
            r.data@ == self.data@,
    {
        CallResponse { alkanes: self.alkanes.copy(), data: copy_bytes(self.data.as_slice()) }
    }
}

} // verus!
