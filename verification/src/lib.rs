//! Verified core of a DAG-based ledger node: token emission, DAG pruning,
//! contract gas metering and state hashing, BLS keys and signer bitmaps,
//! data-availability erasure coding with Merkle commitments, checkpoint
//! hashing and transaction selection, vote records, configuration parsing
//! and wire framing.

pub mod api;
pub mod benchmark;
pub mod bls;
pub mod cbor_codec;
pub mod checkpoint;
pub mod config;
pub mod consensus;
pub mod contracts;
pub mod dag_pruning;
pub mod emission;
pub mod erasure;
pub mod gather;
pub mod qcc;
pub mod hashing;
pub mod rs_codec;
pub mod scheduling;
