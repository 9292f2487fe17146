//! Block-production governance for a parachain.
//!
//! Two independent components, each a small deterministic state machine
//! driven by block-lifecycle callbacks from a host execution environment:
//!
//! - [`consensus_hook`]: a velocity-bounded admission controller that decides
//!   whether a new block may extend the chain, given how many blocks were
//!   already authored in the current relay-chain slot and how large the
//!   not-yet-included segment of local blocks has grown.
//! - [`relay_storage_roots`]: a bounded, insertion-ordered history of
//!   relay-chain storage roots, kept so that state proofs can be validated
//!   against a recent (but not necessarily latest) relay block.
//!
//! The host supplies relay-chain state (slot number, relay block number and
//! state root, unincluded-segment size) as plain values and invokes these
//! components once per block at their designated lifecycle points.

pub mod consensus_hook;
pub mod relay_storage_roots;
