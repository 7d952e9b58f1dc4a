//! Verified core of an ERC-20 transfer indexer: network and token
//! configuration, the event store, the balance mapping with its
//! holder index, the concentration (HHI) computation, the HHI snapshot
//! store and the relayer's settings.
pub mod bignat;
pub mod sorted_map;
pub mod sequences;
pub mod network;
pub mod config;
pub mod types;
pub mod address;
pub mod indexer_store;
pub mod indexer;
pub mod mapping_store;
pub mod principal;
pub mod hhi;
pub mod snapshot;
pub mod relayer;
pub mod http;
