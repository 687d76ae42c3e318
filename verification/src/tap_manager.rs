//! Receipt admission: a receipt is checked against the current allocation and
//! escrow snapshots and, if it passes, recorded.

use vstd::prelude::*;

use crate::address::Address;
use crate::address_map::AddressMap;
use crate::allocation::Allocation;
use crate::escrow::EscrowAccounts;
use crate::feed::SnapshotFeed;
use crate::receipt::{Eip712Domain, NewReceiptNotification, SignedReceipt};
use crate::store::{has_signature, ReceiptRow, ReceiptStore, StorageError};

verus! {

/// Why a receipt was not admitted.
#[derive(Clone, Copy, Debug, PartialEq, Eq)]
pub enum AdmissionError {
    /// The receipt's allocation is not among the indexer's eligible
    /// allocations.
    IneligibleAllocation { allocation_id: Address },
    /// No signer could be recovered from the receipt's signature.
    SignatureInvalid,
    /// No sender has authorised the key that signed the receipt.
    UnknownSigner { signer: Address },
    /// The sender that the signer belongs to has no balance.
    IneligibleSender { sender: Address },
    /// The store refused the receipt.
    StorageError { source: StorageError },
}

/// Who pays for an admitted receipt.
#[derive(Clone, Copy, Debug, PartialEq, Eq)]
pub struct Payer {
    pub signer: Address,
    pub sender: Address,
}

/// What admission decides of a receipt, given the two snapshots and the signer
/// that was recovered from the receipt's signature: the first check that
/// fails names the error.
pub open spec fn admission_outcome(
    allocations: Option<Map<Address, Allocation>>,
    escrow: Option<EscrowAccounts>,
    receipt: SignedReceipt,
    recovered_signer: Option<Address>,
) -> Result<Payer, AdmissionError> {
    if !(allocations is Some && allocations->0.contains_key(receipt.message.allocation_id)) {
        Err(AdmissionError::IneligibleAllocation { allocation_id: receipt.message.allocation_id })
    } else if recovered_signer is None {
        Err(AdmissionError::SignatureInvalid)
    } else if escrow is None || escrow->0.sender_of(recovered_signer->0) is None {
        Err(AdmissionError::UnknownSigner { signer: recovered_signer->0 })
    } else if !escrow->0.sender_is_eligible(escrow->0.sender_of(recovered_signer->0)->0) {
        Err(AdmissionError::IneligibleSender { sender: escrow->0.sender_of(recovered_signer->0)->0 })
    } else {
        Ok(Payer { signer: recovered_signer->0, sender: escrow->0.sender_of(recovered_signer->0)->0 })
    }
}

/// The row that an admitted receipt becomes in the receipt log.
pub open spec fn receipt_row(id: u64, receipt: SignedReceipt, signer: Address) -> ReceiptRow {
    ReceiptRow {
        id,
        allocation_id: receipt.message.allocation_id,
        signer_address: signer,
        signature: receipt.signature,
        timestamp_ns: receipt.message.timestamp_ns,
        nonce: receipt.message.nonce,
        value: receipt.message.value,
    }
}

/// The view of an allocations snapshot, if there is one.
pub open spec fn allocations_view(a: Option<AddressMap<Allocation>>) -> Option<Map<Address, Allocation>> {
    match a {
        Some(m) => Some(m@),
        None => None,
    }
}

/// Decides whether a receipt is admitted, given the current snapshots (none
/// where a feed has published nothing yet) and the signer recovered from the
/// receipt's signature (none where recovery failed).
pub fn check_receipt(
    allocations: Option<&AddressMap<Allocation>>,
    escrow: Option<&EscrowAccounts>,
    receipt: &SignedReceipt,
    recovered_signer: Option<Address>,
) -> (r: Result<Payer, AdmissionError>)
    ensures
        r == admission_outcome(
            match allocations {
                Some(m) => Some(m@),
                None => None,
            },
            match escrow {
                Some(e) => Some(*e),
                None => None,
            },
            *receipt,
            recovered_signer,
        ),
        r matches Ok(p) ==> escrow is Some && escrow->0.is_signer_of(p.signer, p.sender)
            && escrow->0.sender_is_eligible(p.sender) && recovered_signer == Some(p.signer),
{
    let allocation_id = receipt.message.allocation_id;
    let known = match allocations {
        Some(m) => m.contains_key(&allocation_id),
        None => false,
    };
    if !known {
        return Err(AdmissionError::IneligibleAllocation { allocation_id });
    }
    let signer = match recovered_signer {
        Some(s) => s,
        None => {
            return Err(AdmissionError::SignatureInvalid);
        },
    };
    let escrow = match escrow {
        Some(e) => e,
        None => {
            return Err(AdmissionError::UnknownSigner { signer });
        },
    };
    let sender = match escrow.get_sender_for_signer(&signer) {
        Some(s) => s,
        None => {
            return Err(AdmissionError::UnknownSigner { signer });
        },
    };
    if !escrow.is_sender_eligible(&sender) {
        return Err(AdmissionError::IneligibleSender { sender });
    }
    Ok(Payer { signer, sender })
}

/// Admits receipts against the latest allocation and escrow snapshots.
pub struct TapManager {
    indexer_allocations: SnapshotFeed<AddressMap<Allocation>>,
    escrow_accounts: SnapshotFeed<EscrowAccounts>,
    domain_separator: Eip712Domain,
}

impl TapManager {
    /// The latest allocations snapshot, if one was published.
    pub closed spec fn allocations(&self) -> Option<Map<Address, Allocation>> {
        allocations_view(self.indexer_allocations.latest())
    }

    /// The latest escrow snapshot, if one was published.
    pub closed spec fn escrow(&self) -> Option<EscrowAccounts> {
        self.escrow_accounts.latest()
    }

    /// The domain under which receipts are signed.
    pub closed spec fn domain(&self) -> Eip712Domain {
        self.domain_separator
    }

    /// How many allocation snapshots were published.
    pub closed spec fn allocations_version(&self) -> u64 {
        self.indexer_allocations.version()
    }

    /// How many escrow snapshots were published.
    pub closed spec fn escrow_version(&self) -> u64 {
        self.escrow_accounts.version()
    }

    /// A manager over the two feeds.
    pub fn new(
        indexer_allocations: SnapshotFeed<AddressMap<Allocation>>,
        escrow_accounts: SnapshotFeed<EscrowAccounts>,
        domain_separator: Eip712Domain,
    ) -> (m: TapManager)
        ensures
            m.allocations() == allocations_view(indexer_allocations.latest()),
            m.escrow() == escrow_accounts.latest(),
            m.domain() == domain_separator,
            m.allocations_version() == indexer_allocations.version(),
            m.escrow_version() == escrow_accounts.version(),
    {
        TapManager { indexer_allocations, escrow_accounts, domain_separator }
    }

    /// The domain under which receipts are signed.
    pub fn domain_separator(&self) -> (d: Eip712Domain)
        ensures
            d == self.domain(),
    {
        self.domain_separator
    }

    /// Whether another allocations snapshot can be published.
    pub fn can_publish_allocations(&self) -> (r: bool)
        ensures
            r == (self.allocations_version() < u64::MAX),
    {
        self.indexer_allocations.published() < u64::MAX
    }

    /// Whether another escrow snapshot can be published.
    pub fn can_publish_escrow_accounts(&self) -> (r: bool)
        ensures
            r == (self.escrow_version() < u64::MAX),
    {
        self.escrow_accounts.published() < u64::MAX
    }

    /// Puts a new allocations snapshot in place of the latest one.
    pub fn publish_allocations(&mut self, snapshot: AddressMap<Allocation>)
        requires
            old(self).allocations_version() < u64::MAX,
        ensures
            final(self).allocations() == Some(snapshot@),
            final(self).allocations_version() == old(self).allocations_version() + 1,
            final(self).escrow() == old(self).escrow(),
            final(self).escrow_version() == old(self).escrow_version(),
            final(self).domain() == old(self).domain(),
    {
        self.indexer_allocations.publish(snapshot);
    }

    /// Puts a new escrow snapshot in place of the latest one.
    pub fn publish_escrow_accounts(&mut self, snapshot: EscrowAccounts)
        requires
            old(self).escrow_version() < u64::MAX,
        ensures
            final(self).escrow() == Some(snapshot),
            final(self).escrow_version() == old(self).escrow_version() + 1,
            final(self).allocations() == old(self).allocations(),
            final(self).allocations_version() == old(self).allocations_version(),
            final(self).domain() == old(self).domain(),
    {
        self.escrow_accounts.publish(snapshot);
    }

    /// Checks that the receipt refers to an eligible allocation and comes
    /// from an eligible sender, and records it if so.
    ///
    /// `recovered_signer` is the signer recovered from the receipt's signature
    /// under the manager's domain, or `None` where recovery failed. A receipt
    /// that fails a check leaves the store untouched; so does one that the
    /// store refuses, such as a receipt that was recorded before.
    pub fn verify_and_store_receipt(
        &self,
        store: &mut ReceiptStore,
        receipt: SignedReceipt,
        recovered_signer: Option<Address>,
    ) -> (r: Result<NewReceiptNotification, AdmissionError>)
        ensures
            final(store).invalid_receipts() == old(store).invalid_receipts(),
            final(store).failed_rav_requests() == old(store).failed_rav_requests(),
            final(store).next_invalid_id() == old(store).next_invalid_id(),
            forall|a: Address, b: Address| final(store).rav(a, b) == old(store).rav(a, b),
            match admission_outcome(self.allocations(), self.escrow(), receipt, recovered_signer) {
                Err(e) => r == Err::<NewReceiptNotification, AdmissionError>(e),
                Ok(p) => {
                    &&& self.escrow()->0.is_signer_of(p.signer, p.sender)
                    &&& self.escrow()->0.sender_is_eligible(p.sender)
                    &&& if has_signature(old(store).receipts(), receipt.signature) {
                        r == Err::<NewReceiptNotification, AdmissionError>(
                            AdmissionError::StorageError { source: StorageError::DuplicateSignature },
                        )
                    } else if old(store).next_id() == u64::MAX {
                        r == Err::<NewReceiptNotification, AdmissionError>(
                            AdmissionError::StorageError { source: StorageError::IdsExhausted },
                        )
                    } else {
                        r == Ok::<NewReceiptNotification, AdmissionError>(
                            NewReceiptNotification {
                                id: old(store).next_id(),
                                allocation_id: receipt.message.allocation_id,
                                signer_address: p.signer,
                                timestamp_ns: receipt.message.timestamp_ns,
                                value: receipt.message.value,
                            },
                        )
                    }
                },
            },
            r is Ok ==> final(store).receipts() == old(store).receipts().push(
                receipt_row(old(store).next_id(), receipt, recovered_signer->0),
            ) && final(store).next_id() == old(store).next_id() + 1,
            r is Err ==> final(store).receipts() == old(store).receipts() && final(store).next_id()
                == old(store).next_id(),
    {
        let payer = match check_receipt(
            self.indexer_allocations.value(),
            self.escrow_accounts.value(),
            &receipt,
            recovered_signer,
        ) {
            Ok(p) => p,
            Err(e) => {
                return Err(e);
            },
        };
        match store.insert_receipt(
            payer.signer,
            receipt.message.allocation_id,
            receipt.signature,
            receipt.message.nonce,
            receipt.message.timestamp_ns,
            receipt.message.value,
        ) {
            Ok(n) => Ok(n),
            Err(e) => Err(AdmissionError::StorageError { source: e }),
        }
    }
}

} // verus!
