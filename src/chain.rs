//! Plain-value model of the chain data a sync pass works on.
use vstd::prelude::*;

verus! {

broadcast use vstd::array::group_array_axioms;

/// A transaction identifier: the 32 bytes of its hash, in internal byte order.
#[derive(PartialEq, Eq, Debug, Hash)]
pub struct TxId {
    pub bytes: [u8; 32],
}

impl View for TxId {
    type V = Seq<u8>;

    open spec fn view(&self) -> Seq<u8> {
        self.bytes@
    }
}

impl Clone for TxId {
    fn clone(&self) -> (r: TxId)
        ensures
            r == *self,
    {
        TxId { bytes: self.bytes }
    }
}

impl TxId {
    /// Byte-wise equality of two identifiers.
    pub fn same_as(&self, other: &TxId) -> (r: bool)
        ensures
            r == (*self == *other),
    {
        let mut i: usize = 0;
        while i < 32
            invariant
                i <= 32,
                forall|j: int| 0 <= j < i ==> self.bytes@[j] == other.bytes@[j],
            decreases 32 - i,
        {
            if self.bytes[i] != other.bytes[i] {
                return false;
            }
            i = i + 1;
        }
        assert(self.bytes =~= other.bytes);
        true
    }
}

/// What the backend reports of one transaction: whether it is confirmed, and
/// at which height when it is.
#[derive(Clone, Copy, PartialEq, Eq, Debug)]
pub struct TxStatus {
    pub confirmed: bool,
    pub block_height: Option<u32>,
}

/// The height a status places its transaction at: present exactly when the
/// status is confirmed and carries a height.
pub open spec fn confirmed_height_of(s: TxStatus) -> Option<u32> {
    if s.confirmed {
        s.block_height
    } else {
        None
    }
}

/// Whether a status lookup counts as confirmed; no status at all means
/// unconfirmed.
pub open spec fn is_confirmed(s: Option<TxStatus>) -> bool {
    match s {
        Some(st) => st.confirmed,
        None => false,
    }
}

pub fn confirmed_height(s: &TxStatus) -> (r: Option<u32>)
    ensures
        r == confirmed_height_of(*s),
{
    if s.confirmed {
        s.block_height
    } else {
        None
    }
}

/// Confirmation flag of a status lookup; a missing status is unconfirmed.
pub fn status_confirmed(s: &Option<TxStatus>) -> (r: bool)
    ensures
        r == is_confirmed(*s),
{
    match s {
        Some(st) => st.confirmed,
        None => false,
    }
}

/// One entry of a script's history: the transaction's status, its id and the
/// transaction itself.
#[derive(PartialEq, Eq, Debug)]
pub struct HistoryEntry<T> {
    pub status: TxStatus,
    pub txid: TxId,
    pub tx: T,
}

/// A transaction found confirmed, with the height of its block.
#[derive(PartialEq, Eq, Debug)]
pub struct ConfirmedTx<T> {
    pub height: u32,
    pub tx: T,
}

} // verus!
