//! The checks that a receipt has to pass before it goes into a voucher.

use std::collections::HashMap;
use vstd::prelude::*;
use vstd::string::StringExecFns;

use crate::address::Address;
use crate::escrow::contains_address;
use crate::receipt::{Signature, SignedReceipt};
use crate::store::{ReceiptRow, ReceiptStore};

verus! {

/// Why a check could not be made.
#[derive(Clone, Debug, PartialEq, Eq)]
pub enum AdapterError {
    AdapterError { error: String },
}

/// Whether the log holds a receipt with the signature under another id.
pub open spec fn has_other_with_signature(rows: Seq<ReceiptRow>, signature: Signature, id: u64) -> bool {
    exists|i: int|
        0 <= i < rows.len() && (#[trigger] rows[i]).signature == signature && rows[i].id != id
}

impl AdapterError {
    /// The error as text.
    pub fn message(&self) -> (s: String)
        ensures
            s@ == "something went wrong: "@ + self->error@,
    {
        match self {
            AdapterError::AdapterError { error } => {
                let prefix = String::from_str("something went wrong: ");
                prefix.concat(error.as_str())
            },
        }
    }
}

/// What the checks are made against: the value that each query was appraised
/// at, the indexer's allocations and the gateways it accepts.
pub struct ReceiptChecksAdapter {
    query_appraisals: HashMap<u64, u128>,
    allocation_ids: Vec<Address>,
    gateway_ids: Vec<Address>,
}

impl ReceiptChecksAdapter {
    /// The value that each query was appraised at.
    pub closed spec fn appraisals(&self) -> Map<u64, u128> {
        self.query_appraisals@
    }

    /// The indexer's allocations.
    pub closed spec fn allocations(&self) -> Seq<Address> {
        self.allocation_ids@
    }

    /// The gateways that the indexer accepts.
    pub closed spec fn gateways(&self) -> Seq<Address> {
        self.gateway_ids@
    }

    /// The checks against the given appraisals, allocations and gateways.
    pub fn new(query_appraisals: HashMap<u64, u128>, allocation_ids: Vec<Address>, gateway_ids: Vec<Address>) -> (a:
        ReceiptChecksAdapter)
        ensures
            a.appraisals() == query_appraisals@,
            a.allocations() == allocation_ids@,
            a.gateways() == gateway_ids@,
    {
        ReceiptChecksAdapter { query_appraisals, allocation_ids, gateway_ids }
    }

    /// Whether no other row of the receipt log carries the receipt's
    /// signature. An id that the log cannot hold is refused.
    pub fn is_unique(&self, store: &ReceiptStore, receipt: &SignedReceipt, receipt_id: u64) -> (r: Result<
        bool,
        AdapterError,
    >)
        ensures
            r is Ok <==> receipt_id <= i64::MAX,
            r matches Ok(unique) ==> unique == !has_other_with_signature(
                store.receipts(),
                receipt.signature,
                receipt_id,
            ),
            r matches Err(e) ==> e->error@ == "out of range integral type conversion attempted"@,
    {
        if receipt_id > 0x7fff_ffff_ffff_ffff {
            return Err(
                AdapterError::AdapterError {
                    error: String::from_str("out of range integral type conversion attempted"),
                },
            );
        }
        let mut i: usize = 0;
        while i < store.receipt_count()
            invariant
                i <= store.receipts().len(),
                receipt_id <= i64::MAX,
                forall|j: int|
                    0 <= j < i ==> !((#[trigger] store.receipts()[j]).signature == receipt.signature
                        && store.receipts()[j].id != receipt_id),
            decreases store.receipts().len() - i,
        {
            let row = store.receipt_at(i);
            if row.id != receipt_id && row.signature == receipt.signature {
                return Ok(false);
            }
            i += 1;
        }
        Ok(true)
    }

    /// Whether the allocation is one of the indexer's.
    pub fn is_valid_allocation_id(&self, allocation_id: Address) -> (r: Result<bool, AdapterError>)
        ensures
            r matches Ok(valid) && valid == self.allocations().contains(allocation_id),
    {
        Ok(contains_address(&self.allocation_ids, &allocation_id))
    }

    /// Whether the value is what the query was appraised at. A query that
    /// was not appraised cannot be checked.
    pub fn is_valid_value(&self, value: u128, query_id: u64) -> (r: Result<bool, AdapterError>)
        ensures
            r is Ok <==> self.appraisals().contains_key(query_id),
            r matches Ok(valid) ==> valid == (value == self.appraisals()[query_id]),
            r matches Err(e) ==> e->error@ == "No appraised value found for query"@,
    {
        broadcast use vstd::std_specs::hash::group_hash_axioms;

        match self.query_appraisals.get(&query_id) {
            Some(appraised_value) => Ok(value == *appraised_value),
            None => Err(
                AdapterError::AdapterError {
                    error: String::from_str("No appraised value found for query"),
                },
            ),
        }
    }

    /// Whether the gateway is one that the indexer accepts.
    pub fn is_valid_gateway_id(&self, gateway_id: Address) -> (r: Result<bool, AdapterError>)
        ensures
            r matches Ok(valid) && valid == self.gateways().contains(gateway_id),
    {
        Ok(contains_address(&self.gateway_ids, &gateway_id))
    }
}

} // verus!
