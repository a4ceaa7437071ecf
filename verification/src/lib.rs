//! Ledger service for a DAG-based BFT consensus node.
//!
//! The consensus engine certifies batches of gossiped content
//! ("transmissions") across rounds proposed by a rotating validator
//! committee.  This library is the bridge between that engine and the
//! ledger: it resolves the applicable committee per round, validates
//! inbound transmissions against their claimed identities, and turns
//! finalized sub-DAGs into ordered, hash-linked blocks.

pub mod block;
pub mod codec;
pub mod committee;
pub mod errors;
pub mod ledger;
pub mod transmission;
