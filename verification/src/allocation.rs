//! Allocations and the snapshot of the indexer's allocations that are
//! eligible for receipts.

use vstd::prelude::*;

use crate::address::{address_of, is_address_text, Address};
use crate::address_map::{insert_all, AddressMap};
use crate::escrow::U256;

verus! {

/// Where an allocation stands in its life.
#[derive(Clone, Copy, Debug, PartialEq, Eq, Structural)]
pub enum AllocationStatus {
    Null,
    Active,
    Closed,
    Finalized,
    Claimed,
}

/// The subgraph deployment that an allocation serves.
#[derive(Clone, Debug, PartialEq, Eq)]
pub struct SubgraphDeployment {
    pub id: String,
    pub denied_at: Option<u64>,
}

/// An indexer's commitment to serve a subgraph deployment. Receipts are
/// scoped to it.
#[derive(Clone, Debug, PartialEq, Eq)]
pub struct Allocation {
    pub id: Address,
    pub status: AllocationStatus,
    pub subgraph_deployment: SubgraphDeployment,
    pub indexer: Address,
    pub allocated_tokens: U256,
    pub created_at_epoch: u64,
    pub created_at_block_hash: String,
    pub closed_at_epoch: Option<u64>,
    pub closed_at_epoch_start_block_hash: Option<String>,
    pub previous_epoch_start_block_hash: Option<String>,
    pub poi: Option<String>,
    pub query_fee_rebates: Option<U256>,
    pub query_fees_collected: Option<U256>,
}

/// An allocation as the network subgraph reports it, identifiers still as
/// text.
#[derive(Clone, Debug, PartialEq, Eq)]
pub struct AllocationFragment {
    pub id: String,
    pub indexer: String,
    pub status: AllocationStatus,
    pub subgraph_deployment: SubgraphDeployment,
    pub allocated_tokens: U256,
    pub created_at_epoch: u64,
    pub created_at_block_hash: String,
    pub closed_at_epoch: Option<u64>,
    pub closed_at_epoch_start_block_hash: Option<String>,
    pub previous_epoch_start_block_hash: Option<String>,
    pub poi: Option<String>,
    pub query_fee_rebates: Option<U256>,
    pub query_fees_collected: Option<U256>,
}

/// What the network subgraph reports of an indexer.
#[derive(Clone, Debug, PartialEq, Eq)]
pub struct IndexerAllocations {
    pub active_allocations: Vec<AllocationFragment>,
    pub recently_closed_allocations: Vec<AllocationFragment>,
}

/// Why no snapshot could be made of what the network subgraph reported.
#[derive(Clone, Copy, Debug, PartialEq, Eq)]
pub enum AllocationsError {
    /// The network subgraph does not know the indexer.
    IndexerNotFound { indexer: Address },
    /// An allocation's id is not address text.
    InvalidAllocationId,
    /// An allocation's indexer is not address text.
    InvalidIndexerId,
}

/// The marker of the query for an indexer's active and recently closed
/// allocations.
#[derive(Clone, Copy, Debug, PartialEq, Eq, Structural)]
pub struct AllocationsQuery;

/// The variables of the allocations query.
#[derive(Clone, Debug, PartialEq, Eq)]
pub struct AllocationsQueryVariables {
    pub indexer: String,
    pub closed_at_threshold: i64,
}

fn clone_text(o: &Option<String>) -> (r: Option<String>)
    ensures
        r == *o,
{
    match o {
        Some(s) => Some(s.clone()),
        None => None,
    }
}

impl AllocationFragment {
    /// Whether both identifiers of the report are address text.
    pub open spec fn is_valid(&self) -> bool {
        is_address_text(self.id@) && is_address_text(self.indexer@)
    }

    /// The allocation that a valid report denotes: every field is taken from
    /// the report.
    pub open spec fn allocation(&self) -> Allocation {
        Allocation {
            id: address_of(self.id@),
            status: self.status,
            subgraph_deployment: self.subgraph_deployment,
            indexer: address_of(self.indexer@),
            allocated_tokens: self.allocated_tokens,
            created_at_epoch: self.created_at_epoch,
            created_at_block_hash: self.created_at_block_hash,
            closed_at_epoch: self.closed_at_epoch,
            closed_at_epoch_start_block_hash: self.closed_at_epoch_start_block_hash,
            previous_epoch_start_block_hash: self.previous_epoch_start_block_hash,
            poi: self.poi,
            query_fee_rebates: self.query_fee_rebates,
            query_fees_collected: self.query_fees_collected,
        }
    }
}

/// The reports of a list as map entries, each under its allocation's id.
pub open spec fn fragment_entries(list: Seq<AllocationFragment>) -> Seq<(Address, Allocation)> {
    Seq::new(list.len(), |i: int| (address_of(list[i].id@), list[i].allocation()))
}

/// Whether every report of a list has address text for both identifiers.
pub open spec fn all_valid(list: Seq<AllocationFragment>) -> bool {
    forall|i: int| 0 <= i < list.len() ==> (#[trigger] list[i]).is_valid()
}

/// The snapshot that an answer with valid reports denotes: the active
/// allocations, then the recently closed ones, the later of two reports with
/// one id.
pub open spec fn snapshot_of(found: IndexerAllocations) -> Map<Address, Allocation> {
    insert_all(
        insert_all(Map::empty(), fragment_entries(found.active_allocations@)),
        fragment_entries(found.recently_closed_allocations@),
    )
}

impl Allocation {
    /// The allocation that the network subgraph reported. Every field comes
    /// from the report; a report whose allocation id or indexer is not address
    /// text is refused.
    pub fn from_fragment(f: &AllocationFragment) -> (r: Result<Allocation, AllocationsError>)
        ensures
            r is Ok <==> f.is_valid(),
            r matches Ok(a) ==> a == f.allocation(),
            r matches Err(e) ==> e == (if !is_address_text(f.id@) {
                AllocationsError::InvalidAllocationId
            } else {
                AllocationsError::InvalidIndexerId
            }),
    {
        let id = match Address::from_str(f.id.as_str()) {
            Some(a) => a,
            None => {
                return Err(AllocationsError::InvalidAllocationId);
            },
        };
        let indexer = match Address::from_str(f.indexer.as_str()) {
            Some(a) => a,
            None => {
                return Err(AllocationsError::InvalidIndexerId);
            },
        };
        Ok(
            Allocation {
                id,
                status: f.status,
                subgraph_deployment: SubgraphDeployment {
                    id: f.subgraph_deployment.id.clone(),
                    denied_at: f.subgraph_deployment.denied_at,
                },
                indexer,
                allocated_tokens: f.allocated_tokens,
                created_at_epoch: f.created_at_epoch,
                created_at_block_hash: f.created_at_block_hash.clone(),
                closed_at_epoch: f.closed_at_epoch,
                closed_at_epoch_start_block_hash: clone_text(&f.closed_at_epoch_start_block_hash),
                previous_epoch_start_block_hash: clone_text(&f.previous_epoch_start_block_hash),
                poi: clone_text(&f.poi),
                query_fee_rebates: f.query_fee_rebates,
                query_fees_collected: f.query_fees_collected,
            },
        )
    }

    /// Whether the allocation is open.
    pub fn is_active(&self) -> (r: bool)
        ensures
            r == (self.status == AllocationStatus::Active),
    {
        match self.status {
            AllocationStatus::Active => true,
            _ => false,
        }
    }
}

/// The time before which a closed allocation no longer takes receipts: the
/// buffer before now, in whole seconds since the epoch. Both times are given
/// in nanoseconds; the buffer is taken off before the seconds are counted.
pub fn closed_at_threshold(now_ns: u128, recently_closed_allocation_buffer_ns: u128) -> (t: i64)
    requires
        recently_closed_allocation_buffer_ns <= now_ns,
        (now_ns - recently_closed_allocation_buffer_ns) / 1_000_000_000 <= i64::MAX,
    ensures
        t == (now_ns - recently_closed_allocation_buffer_ns) / 1_000_000_000,
{
    ((now_ns - recently_closed_allocation_buffer_ns) / 1_000_000_000) as i64
}

/// The time before which a closed allocation no longer takes receipts, or
/// `None` where the buffer reaches back before the epoch or the time does not
/// fit the query's variable.
pub fn checked_closed_at_threshold(now_ns: u128, recently_closed_allocation_buffer_ns: u128) -> (t: Option<
    i64,
>)
    ensures
        t is Some <==> recently_closed_allocation_buffer_ns <= now_ns && (now_ns
            - recently_closed_allocation_buffer_ns) / 1_000_000_000 <= i64::MAX,
        t matches Some(v) ==> v == (now_ns - recently_closed_allocation_buffer_ns) / 1_000_000_000,
{
    if recently_closed_allocation_buffer_ns <= now_ns && (now_ns - recently_closed_allocation_buffer_ns)
        / 1_000_000_000 <= 0x7fff_ffff_ffff_ffff {
        Some(closed_at_threshold(now_ns, recently_closed_allocation_buffer_ns))
    } else {
        None
    }
}

impl AllocationsQuery {
    /// The variables of the query for an indexer: the indexer in transport
    /// form and the threshold for closed allocations.
    pub fn variables(indexer_address: &Address, closed_at_threshold: i64) -> (v: AllocationsQueryVariables)
        ensures
            v.indexer@ == seq!['0', 'x'] + crate::address::hex_of(indexer_address@),
            v.closed_at_threshold == closed_at_threshold,
    {
        AllocationsQueryVariables { indexer: indexer_address.to_prefixed_hex(), closed_at_threshold }
    }
}

fn add_fragments(m: &mut AddressMap<Allocation>, list: &Vec<AllocationFragment>) -> (r: Result<
    (),
    AllocationsError,
>)
    ensures
        r is Ok <==> all_valid(list@),
        r is Ok ==> final(m)@ == insert_all(old(m)@, fragment_entries(list@)),
        r matches Err(e) ==> e is InvalidAllocationId || e is InvalidIndexerId,
{
    let ghost entries = fragment_entries(list@);
    let mut i: usize = 0;
    while i < list.len()
        invariant
            i <= list.len(),
            entries == fragment_entries(list@),
            forall|j: int| 0 <= j < i ==> (#[trigger] list@[j]).is_valid(),
            m@ == insert_all(old(m)@, entries.take(i as int)),
        decreases list.len() - i,
    {
        match Allocation::from_fragment(&list[i]) {
            Ok(a) => {
                proof {
                    assert(entries.take(i as int + 1).drop_last() =~= entries.take(i as int));
                    assert(entries.take(i as int + 1).last() == (a.id, a));
                }
                m.insert(a.id, a);
            },
            Err(e) => {
                assert(!list@[i as int].is_valid());
                return Err(e);
            },
        }
        i += 1;
    }
    proof {
        assert(entries.take(entries.len() as int) =~= entries);
    }
    Ok(())
}

/// The indexer's active and recently closed allocations, from what the
/// network subgraph answered: a map from allocation id to allocation. Of two
/// reports with one id the later stays, the recently closed ones coming after
/// the active ones. An answer without the indexer is refused, and so is a
/// report whose identifiers are not address text.
pub fn indexer_allocations(response: &Option<IndexerAllocations>, indexer_address: Address) -> (r:
    Result<AddressMap<Allocation>, AllocationsError>)
    ensures
        r is Ok <==> response is Some && all_valid(response->0.active_allocations@) && all_valid(
            response->0.recently_closed_allocations@,
        ),
        r matches Ok(m) ==> m@ == snapshot_of(response->0),
        response is None ==> r == Err::<AddressMap<Allocation>, AllocationsError>(
            AllocationsError::IndexerNotFound { indexer: indexer_address },
        ),
        response is Some ==> (r matches Err(e) ==> e is InvalidAllocationId || e is InvalidIndexerId),
{
    match response {
        None => Err(AllocationsError::IndexerNotFound { indexer: indexer_address }),
        Some(found) => {
            let mut m: AddressMap<Allocation> = AddressMap::new();
            match add_fragments(&mut m, &found.active_allocations) {
                Ok(()) => {},
                Err(e) => {
                    return Err(e);
                },
            }
            match add_fragments(&mut m, &found.recently_closed_allocations) {
                Ok(()) => {},
                Err(e) => {
                    return Err(e);
                },
            }
            Ok(m)
        },
    }
}

} // verus!
