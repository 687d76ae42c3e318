use indexer_tap::address::Address;
use indexer_tap::config::{
    DatabaseConfig, EscrowSubgraphConfig, GraphNetworkConfig, HostAndPort, IndexerConfig, IndexerServiceConfig,
    IpAddress, NetworkSubgraphConfig, ReceiptsConfig, ServerConfig,
};
use indexer_tap::receipt::Eip712Domain;

#[test]
fn configuration_holds_what_it_is_given() {
    let config = IndexerServiceConfig {
        indexer: IndexerConfig { indexer_address: Address::new([1; 20]), operator_mnemonic: "abandon ability".to_string() },
        server: ServerConfig {
            host_and_port: HostAndPort { ip: IpAddress::V4 { octets: [0, 0, 0, 0] }, port: 7600 },
            url_prefix: "/".to_string(),
            free_query_auth_token: None,
        },
        database: DatabaseConfig { postgres_url: "postgres://localhost".to_string() },
        network_subgraph: NetworkSubgraphConfig { query_url: "http://network".to_string(), syncing_interval: 60 },
        escrow_subgraph: EscrowSubgraphConfig { query_url: "http://escrow".to_string(), syncing_interval: 300 },
        graph_network: GraphNetworkConfig { id: 1 },
    };
    let copy = config.clone();
    assert_eq!(copy, config);
    assert_eq!(config.graph_network.id, 1);
    assert_eq!(config.server.host_and_port.port, 7600);
}

#[test]
fn syncing_intervals_in_nanoseconds() {
    let network = NetworkSubgraphConfig { query_url: String::new(), syncing_interval: 60 };
    assert_eq!(network.syncing_interval_ns(), 60_000_000_000);
    let escrow = EscrowSubgraphConfig { query_url: String::new(), syncing_interval: u64::MAX };
    assert_eq!(escrow.syncing_interval_ns(), u64::MAX as u128 * 1_000_000_000);
}

#[test]
fn receipts_configuration_names_the_domain() {
    let receipts = ReceiptsConfig { receipts_verifier_chain_id: 1337, receipts_verifier_address: Address::new([0x11; 20]) };
    assert_eq!(receipts.domain(), Eip712Domain { chain_id: 1337, verifying_contract: Address::new([0x11; 20]) });
    assert_eq!(Eip712Domain::name(), "TAP");
    assert_eq!(Eip712Domain::version(), "1");
}
