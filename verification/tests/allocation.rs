use indexer_tap::address::Address;
use indexer_tap::allocation::{
    checked_closed_at_threshold, closed_at_threshold, indexer_allocations, Allocation, AllocationFragment,
    AllocationStatus, AllocationsError, AllocationsQuery, AllocationsQueryVariables, IndexerAllocations,
    SubgraphDeployment,
};
use indexer_tap::escrow::U256;

const INDEXER_ADDRESS: &str = "0xd75c4dbcb215a6cf9097cfbcc70aab2596b96a9c";

fn secs(s: u64) -> u128 {
    std::time::Duration::from_secs(s).as_nanos()
}

fn fragment(id: &str, status: AllocationStatus, tokens: u128) -> AllocationFragment {
    AllocationFragment {
        id: id.to_string(),
        indexer: INDEXER_ADDRESS.to_string(),
        status,
        subgraph_deployment: SubgraphDeployment { id: "QmAAAAAAAAAAAAAAAAAAAAAAAAAAAAAAAAAAAAAAAA".to_string(), denied_at: Some(0) },
        allocated_tokens: U256::from_u128(tokens),
        created_at_epoch: 940,
        created_at_block_hash: "0x8f81eb856cf59c4493ca1f4fbb1d6b8e2ad27ead4b9a1b65ab0a0f80a86bf7a0".to_string(),
        closed_at_epoch: if status == AllocationStatus::Closed { Some(953) } else { None },
        closed_at_epoch_start_block_hash: None,
        previous_epoch_start_block_hash: Some("0x01".to_string()),
        poi: if status == AllocationStatus::Closed { Some("0xab".to_string()) } else { None },
        query_fee_rebates: Some(U256::from_u128(3)),
        query_fees_collected: None,
    }
}

fn expected(id: &str, status: AllocationStatus, tokens: u128) -> Allocation {
    Allocation {
        id: Address::from_str(id).unwrap(),
        status,
        subgraph_deployment: SubgraphDeployment { id: "QmAAAAAAAAAAAAAAAAAAAAAAAAAAAAAAAAAAAAAAAA".to_string(), denied_at: Some(0) },
        indexer: Address::from_str(INDEXER_ADDRESS).unwrap(),
        allocated_tokens: U256::from_u128(tokens),
        created_at_epoch: 940,
        created_at_block_hash: "0x8f81eb856cf59c4493ca1f4fbb1d6b8e2ad27ead4b9a1b65ab0a0f80a86bf7a0".to_string(),
        closed_at_epoch: if status == AllocationStatus::Closed { Some(953) } else { None },
        closed_at_epoch_start_block_hash: None,
        previous_epoch_start_block_hash: Some("0x01".to_string()),
        poi: if status == AllocationStatus::Closed { Some("0xab".to_string()) } else { None },
        query_fee_rebates: Some(U256::from_u128(3)),
        query_fees_collected: None,
    }
}

const A1: &str = "0xfa44c72b753a66591f241c7dc04e8178c30e13af";
const A2: &str = "0xdd975e30aafebb143e54d215db8a3e8fd916a701";
const A3: &str = "0xa171cd12c3dde7eb8fe7717a0bcd06f3ffa65658";

#[test]
fn test_parses_allocation_data_from_network_subgraph_correctly() {
    // the query is made for allocations closed within the last 300 s
    let now_secs: u64 = 1_700_000_000;
    let variables =
        AllocationsQuery::variables(&Address::from_str(INDEXER_ADDRESS).unwrap(), closed_at_threshold(secs(now_secs), secs(300)));
    assert_eq!(
        variables,
        AllocationsQueryVariables { indexer: INDEXER_ADDRESS.to_string(), closed_at_threshold: 1_699_999_700 }
    );

    let response = Some(IndexerAllocations {
        active_allocations: vec![fragment(A1, AllocationStatus::Active, 5_081_382_841_000_000_014_901_161), fragment(A2, AllocationStatus::Active, 601_726_452_999_999_979_510_903)],
        recently_closed_allocations: vec![fragment(A3, AllocationStatus::Closed, 5_247_998_688_000_000_081_956_387)],
    });

    let allocations = indexer_allocations(&response, Address::from_str(INDEXER_ADDRESS).unwrap()).unwrap();

    assert_eq!(allocations.len(), 3);
    assert_eq!(
        allocations.get(&Address::from_str(A1).unwrap()),
        Some(&expected(A1, AllocationStatus::Active, 5_081_382_841_000_000_014_901_161))
    );
    assert_eq!(
        allocations.get(&Address::from_str(A2).unwrap()),
        Some(&expected(A2, AllocationStatus::Active, 601_726_452_999_999_979_510_903))
    );
    assert_eq!(
        allocations.get(&Address::from_str(A3).unwrap()),
        Some(&expected(A3, AllocationStatus::Closed, 5_247_998_688_000_000_081_956_387))
    );
}

#[test]
fn indexer_not_found() {
    let indexer = Address::from_str(INDEXER_ADDRESS).unwrap();
    assert_eq!(indexer_allocations(&None, indexer).err(), Some(AllocationsError::IndexerNotFound { indexer }));
}

#[test]
fn indexer_without_allocations_gives_an_empty_snapshot() {
    let response = Some(IndexerAllocations { active_allocations: vec![], recently_closed_allocations: vec![] });
    let allocations = indexer_allocations(&response, Address::zero()).unwrap();
    assert_eq!(allocations.len(), 0);
}

#[test]
fn recently_closed_report_replaces_the_active_one_with_the_same_id() {
    let response = Some(IndexerAllocations {
        active_allocations: vec![fragment(A1, AllocationStatus::Active, 1), fragment(A1, AllocationStatus::Active, 2)],
        recently_closed_allocations: vec![fragment(&A1.to_uppercase().replace("0X", "0x"), AllocationStatus::Closed, 3)],
    });
    let allocations = indexer_allocations(&response, Address::zero()).unwrap();
    assert_eq!(allocations.len(), 1);
    let got = allocations.get(&Address::from_str(A1).unwrap()).unwrap();
    assert_eq!(got.status, AllocationStatus::Closed);
    assert_eq!(got.allocated_tokens, U256::from_u128(3));
    assert!(!got.is_active());
}

#[test]
fn report_with_a_bad_identifier_is_refused() {
    let mut bad_id = fragment("0x1234", AllocationStatus::Active, 1);
    assert_eq!(Allocation::from_fragment(&bad_id), Err(AllocationsError::InvalidAllocationId));
    bad_id.indexer = "nobody".to_string();
    assert_eq!(Allocation::from_fragment(&bad_id), Err(AllocationsError::InvalidAllocationId));
    let mut bad_indexer = fragment(A1, AllocationStatus::Active, 1);
    bad_indexer.indexer = "nobody".to_string();
    assert_eq!(Allocation::from_fragment(&bad_indexer), Err(AllocationsError::InvalidIndexerId));
    let response = Some(IndexerAllocations {
        active_allocations: vec![fragment(A1, AllocationStatus::Active, 1)],
        recently_closed_allocations: vec![fragment(A2, AllocationStatus::Closed, 1), bad_indexer],
    });
    assert_eq!(indexer_allocations(&response, Address::zero()).err(), Some(AllocationsError::InvalidIndexerId));
}

#[test]
fn from_fragment_takes_every_field() {
    let mut f = fragment(A1, AllocationStatus::Finalized, 77);
    f.closed_at_epoch = Some(5);
    f.closed_at_epoch_start_block_hash = Some("0xc0".to_string());
    f.query_fees_collected = Some(U256 { hi: 1, lo: 2 });
    f.subgraph_deployment.denied_at = None;
    let a = Allocation::from_fragment(&f).unwrap();
    assert_eq!(a.id, Address::from_str(A1).unwrap());
    assert_eq!(a.indexer, Address::from_str(INDEXER_ADDRESS).unwrap());
    assert_eq!(a.status, AllocationStatus::Finalized);
    assert_eq!(a.subgraph_deployment, f.subgraph_deployment);
    assert_eq!(a.allocated_tokens, U256::from_u128(77));
    assert_eq!(a.created_at_epoch, 940);
    assert_eq!(a.created_at_block_hash, f.created_at_block_hash);
    assert_eq!(a.closed_at_epoch, Some(5));
    assert_eq!(a.closed_at_epoch_start_block_hash, Some("0xc0".to_string()));
    assert_eq!(a.previous_epoch_start_block_hash, Some("0x01".to_string()));
    assert_eq!(a.poi, None);
    assert_eq!(a.query_fee_rebates, Some(U256::from_u128(3)));
    assert_eq!(a.query_fees_collected, Some(U256 { hi: 1, lo: 2 }));
}

#[test]
fn closed_at_threshold_is_the_buffer_before_now() {
    assert_eq!(closed_at_threshold(secs(1_700_000_000), secs(300)), 1_699_999_700);
    assert_eq!(closed_at_threshold(secs(300), secs(300)), 0);
    assert_eq!(closed_at_threshold(secs(60), 0), 60);
    assert_eq!(closed_at_threshold(secs(i64::MAX as u64), 0), i64::MAX);
    assert_eq!(closed_at_threshold(secs(i64::MAX as u64) + 999_999_999, 0), i64::MAX);
}

#[test]
fn closed_at_threshold_takes_the_buffer_off_before_counting_seconds() {
    // now 10.2 s, buffer 0.5 s: 9.7 s, so 9 whole seconds, not 10 - 0
    assert_eq!(closed_at_threshold(10_200_000_000, 500_000_000), 9);
    // now 10.7 s, buffer 0.5 s: 10.2 s
    assert_eq!(closed_at_threshold(10_700_000_000, 500_000_000), 10);
    // now 10.2 s, buffer 1.5 s: 8.7 s, not 10 - 1
    assert_eq!(closed_at_threshold(10_200_000_000, 1_500_000_000), 8);
    assert_eq!(
        closed_at_threshold(
            std::time::Duration::new(100, 1).as_nanos(),
            std::time::Duration::new(40, 2).as_nanos()
        ),
        (std::time::Duration::new(100, 1) - std::time::Duration::new(40, 2)).as_secs() as i64
    );
}

#[test]
fn checked_closed_at_threshold_refuses_what_cannot_be_computed() {
    assert_eq!(checked_closed_at_threshold(secs(1_700_000_000), secs(300)), Some(1_699_999_700));
    assert_eq!(checked_closed_at_threshold(secs(299), secs(300)), None);
    assert_eq!(checked_closed_at_threshold(secs(300), secs(300) + 1), None);
    assert_eq!(checked_closed_at_threshold(secs(u64::MAX), 0), None);
    assert_eq!(checked_closed_at_threshold(secs(u64::MAX), secs(u64::MAX - i64::MAX as u64)), Some(i64::MAX));
    assert_eq!(checked_closed_at_threshold(secs(i64::MAX as u64 + 1), 0), None);
    assert_eq!(checked_closed_at_threshold(secs(i64::MAX as u64 + 1), 1), Some(i64::MAX));
    assert_eq!(checked_closed_at_threshold(0, 0), Some(0));
}
