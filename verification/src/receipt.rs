//! Receipts, receipt aggregate vouchers and the signing domain, as plain
//! values.

use vstd::prelude::*;
use vstd::std_specs::cmp::PartialEqSpecImpl;

use crate::address::Address;

verus! {

/// A 65-byte signature over a typed message.
#[derive(Clone, Copy, Debug, Eq, Hash)]
pub struct Signature {
    pub bytes: [u8; 65],
}

impl View for Signature {
    type V = Seq<u8>;

    open spec fn view(&self) -> Seq<u8> {
        self.bytes@
    }
}

impl PartialEq for Signature {
    fn eq(&self, other: &Self) -> (r: bool) {
        broadcast use vstd::array::group_array_axioms;

        let mut i: usize = 0;
        while i < 65
            invariant
                i <= 65,
                forall|j: int| 0 <= j < i ==> self.bytes[j] == other.bytes[j],
            decreases 65 - i,
        {
            if self.bytes[i] != other.bytes[i] {
                return false;
            }
            i += 1;
        }
        assert(self.bytes =~= other.bytes);
        true
    }
}

impl PartialEqSpecImpl for Signature {
    open spec fn obeys_eq_spec() -> bool {
        true
    }

    open spec fn eq_spec(&self, other: &Self) -> bool {
        *self == *other
    }
}

impl Signature {
    /// The signature with the given bytes.
    pub fn new(bytes: [u8; 65]) -> (s: Signature)
        ensures
            s.bytes == bytes,
    {
        Signature { bytes }
    }
}

/// What a sender promises to pay for one query.
#[derive(Clone, Copy, Debug, PartialEq, Eq)]
pub struct Receipt {
    pub allocation_id: Address,
    pub nonce: u64,
    pub timestamp_ns: u64,
    pub value: u128,
}

/// A receipt with the signature that covers it.
#[derive(Clone, Copy, Debug, PartialEq, Eq)]
pub struct SignedReceipt {
    pub message: Receipt,
    pub signature: Signature,
}

/// The sum of all receipts of an allocation up to a timestamp.
#[derive(Clone, Copy, Debug, PartialEq, Eq)]
pub struct ReceiptAggregateVoucher {
    pub allocation_id: Address,
    pub timestamp_ns: u64,
    pub value_aggregate: u128,
}

/// A voucher with the aggregator's signature.
#[derive(Clone, Copy, Debug, PartialEq, Eq)]
pub struct SignedRav {
    pub message: ReceiptAggregateVoucher,
    pub signature: Signature,
}

/// The typed-data domain under which receipts and vouchers are signed. Its
/// name and version are fixed; chain and contract come from configuration.
#[derive(Clone, Copy, Debug, PartialEq, Eq)]
pub struct Eip712Domain {
    pub chain_id: u64,
    pub verifying_contract: Address,
}

/// What the store announces when a receipt was recorded.
#[derive(Clone, Copy, Debug, PartialEq, Eq)]
pub struct NewReceiptNotification {
    pub id: u64,
    pub allocation_id: Address,
    pub signer_address: Address,
    pub timestamp_ns: u64,
    pub value: u128,
}

impl NewReceiptNotification {
    /// The channel on which the store announces new receipts.
    pub fn channel() -> (s: &'static str)
        ensures
            s@ == "scalar_tap_receipt_notification"@,
    {
        "scalar_tap_receipt_notification"
    }
}

impl ReceiptAggregateVoucher {
    /// Whether two vouchers agree in allocation, timestamp and value.
    pub fn same_as(&self, other: &ReceiptAggregateVoucher) -> (r: bool)
        ensures
            r == (*self == *other),
    {
        self.allocation_id == other.allocation_id && self.timestamp_ns == other.timestamp_ns
            && self.value_aggregate == other.value_aggregate
    }
}

impl Eip712Domain {
    /// The domain name that every receipt and voucher is signed under.
    pub fn name() -> (s: &'static str)
        ensures
            s@ == "TAP"@,
    {
        "TAP"
    }

    /// The domain version that every receipt and voucher is signed under.
    pub fn version() -> (s: &'static str)
        ensures
            s@ == "1"@,
    {
        "1"
    }

    /// The domain for a chain and a verifying contract.
    pub fn new(chain_id: u64, verifying_contract: Address) -> (d: Eip712Domain)
        ensures
            d.chain_id == chain_id,
            d.verifying_contract == verifying_contract,
    {
        Eip712Domain { chain_id, verifying_contract }
    }
}

} // verus!
