//! Coordination engine of a Groth16 phase-2 trusted-setup ceremony: the
//! contribution transform and its verification, the participant registry,
//! the priority queue with its timed contributor lock, the coordinator that
//! ties them together, and the pure parts of the offline transcript verifier.

pub mod codec;
pub mod config;
pub mod coordinator;
pub mod encoding;
pub mod error;
pub mod hashing;
pub mod lock;
pub mod mpc;
pub mod participant;
pub mod queue;
pub mod registration;
pub mod registry;
pub mod signature;
pub mod transcript;
pub mod transfer;
