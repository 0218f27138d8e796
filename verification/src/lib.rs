//! Packet inspection for gRPC traffic that carries tensors.

pub mod bench;
pub mod common;
pub mod endian;
pub mod engine;
pub mod grpc;
pub mod inspect;
pub mod k8s;
pub mod manager;
pub mod metrics;
pub mod numa;
pub mod packet_gen;
pub mod pcap;
pub mod policy;
pub mod prometheus;
pub mod protobuf;
pub mod report;
pub mod settings;
pub mod sharding;
pub mod text;
pub mod tx;
pub mod wire;
pub mod wire_rules;
pub mod worker;
