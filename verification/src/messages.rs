use vstd::prelude::*;
use crate::ring::NodeId;

verus! {

/// Network metrics as carried between nodes. Each real-valued field is held by its
/// IEEE-754 bit pattern (`f64::to_bits`, `f32::to_bits`); the latency is whole
/// seconds and nanoseconds.
#[derive(Debug, Clone, Copy, PartialEq, Eq)]
pub struct MetricsBits {
    pub node_churn_rate: u64,
    pub routing_table_health: u64,
    pub operation_success_rate: u64,
    pub operation_latency_secs: u64,
    pub operation_latency_nanos: u32,
    pub message_type_ratio: u64,
    pub local_key_count: u64,
    pub total_network_keys_estimate: u64,
    pub network_size_estimate: u64,
    pub cpu_usage_percent: u32,
    pub memory_usage_percent: u32,
    pub disk_usage_percent: u32,
    pub active_connections: u32,
    pub request_rate_per_second: u32,
}

/// The messages that nodes exchange.
#[derive(Debug, Clone)]
pub enum DhtMessage {
    Error { message: String },
    FindSuccessor { id: NodeId },
    FoundSuccessor { id: NodeId, address: String, api_address: String },
    FindPredecessor { id: NodeId },
    FoundPredecessor { id: NodeId, address: String, api_address: String },
    Notify { id: NodeId, address: String, api_address: String },
    GetPredecessor,
    Predecessor { id: Option<NodeId>, address: Option<String>, api_address: Option<String> },
    Store { key: NodeId, value: Vec<u8> },
    Retrieve { key: NodeId },
    Retrieved { key: NodeId, value: Option<Vec<Vec<u8>>> },
    ClosestPrecedingNode { id: NodeId },
    FoundClosestPrecedingNode { id: NodeId, address: String, api_address: String },
    GetSuccessor,
    Ping,
    Pong,
    GetDataRange { start: NodeId, end: NodeId },
    DataRange { data: Vec<(NodeId, Vec<Vec<u8>>)> },
    ShareMetrics { metrics: MetricsBits },
    MetricsShared { metrics: MetricsBits },
    ReplicateData { key: NodeId, values: Vec<Vec<u8>>, replica_id: u8 },
    ReplicationAck { key: NodeId, success: bool },
    RequestReplicas { key_range_start: NodeId, key_range_end: NodeId },
    ReplicaData { replicas: Vec<(NodeId, Vec<Vec<u8>>)> },
}

} // verus!
