//! What the indexer service is configured with.

use vstd::prelude::*;

use crate::address::Address;

verus! {

/// Where the database is reached.
#[derive(Clone, Debug, PartialEq, Eq)]
pub struct DatabaseConfig {
    pub postgres_url: String,
}

/// Where the network subgraph is queried, and how often, in seconds.
#[derive(Clone, Debug, PartialEq, Eq)]
pub struct NetworkSubgraphConfig {
    pub query_url: String,
    pub syncing_interval: u64,
}

/// Where the escrow subgraph is queried, and how often, in seconds.
#[derive(Clone, Debug, PartialEq, Eq)]
pub struct EscrowSubgraphConfig {
    pub query_url: String,
    pub syncing_interval: u64,
}

/// An internet address.
#[derive(Clone, Copy, Debug, PartialEq, Eq)]
pub enum IpAddress {
    V4 { octets: [u8; 4] },
    V6 { segments: [u16; 8] },
}

/// An internet address with a port.
#[derive(Clone, Copy, Debug, PartialEq, Eq)]
pub struct HostAndPort {
    pub ip: IpAddress,
    pub port: u16,
}

/// Where the service listens.
#[derive(Clone, Debug, PartialEq, Eq)]
pub struct ServerConfig {
    pub host_and_port: HostAndPort,
    pub url_prefix: String,
    pub free_query_auth_token: Option<String>,
}

/// The network that the indexer serves.
#[derive(Clone, Copy, Debug, PartialEq, Eq, Structural)]
pub struct GraphNetworkConfig {
    pub id: u64,
}

/// Who the indexer is.
#[derive(Clone, Debug, PartialEq, Eq)]
pub struct IndexerConfig {
    pub indexer_address: Address,
    pub operator_mnemonic: String,
}

/// The domain under which receipts are verified.
#[derive(Clone, Copy, Debug, PartialEq, Eq)]
pub struct ReceiptsConfig {
    pub receipts_verifier_chain_id: u64,
    pub receipts_verifier_address: Address,
}

/// The whole configuration of the indexer service.
#[derive(Clone, Debug, PartialEq, Eq)]
pub struct IndexerServiceConfig {
    pub indexer: IndexerConfig,
    pub server: ServerConfig,
    pub database: DatabaseConfig,
    pub network_subgraph: NetworkSubgraphConfig,
    pub escrow_subgraph: EscrowSubgraphConfig,
    pub graph_network: GraphNetworkConfig,
}

impl NetworkSubgraphConfig {
    /// The time between two refreshes of the allocations snapshot, in
    /// nanoseconds.
    pub fn syncing_interval_ns(&self) -> (ns: u128)
        ensures
            ns == self.syncing_interval as nat * 1_000_000_000,
    {
        let secs: u128 = self.syncing_interval as u128;
        secs * 1_000_000_000
    }
}

impl EscrowSubgraphConfig {
    /// The time between two refreshes of the escrow snapshot, in nanoseconds.
    pub fn syncing_interval_ns(&self) -> (ns: u128)
        ensures
            ns == self.syncing_interval as nat * 1_000_000_000,
    {
        let secs: u128 = self.syncing_interval as u128;
        secs * 1_000_000_000
    }
}

impl ReceiptsConfig {
    /// The signing domain that the configuration names.
    pub fn domain(&self) -> (d: crate::receipt::Eip712Domain)
        ensures
            d.chain_id == self.receipts_verifier_chain_id,
            d.verifying_contract == self.receipts_verifier_address,
    {
        crate::receipt::Eip712Domain::new(self.receipts_verifier_chain_id, self.receipts_verifier_address)
    }
}

} // verus!
