//! Models, compact binary codec and peer-knowledge rules of a proof-of-stake node's
//! protocol layer.
//!
//! - `codec`, `compact`: the integer framings and the capabilities of a value with a
//!   compact form.
//! - `hash`, `keys`, `address`, `slot`, `operation`, `endorsement`, `block`: the
//!   models, their compact forms and their identifiers; `crypto` is the collaborator
//!   that hashes and signs.
//! - `validation`: what makes a received object valid.
//! - `known_set`, `requests`, `peer`: what is tracked of each peer.
//! - `worker`, `worker_blocks`: the steps of the protocol worker; `events` is what it
//!   exchanges with its neighbours.
//! - `block_laws`, `worker_laws`: what holds of the codec and of the worker for every
//!   input.

pub mod address;
pub mod block;
pub mod block_addresses;
pub mod block_laws;
pub mod codec;
pub mod compact;
pub mod config;
pub mod crypto;
pub mod endorsement;
pub mod error;
pub mod events;
pub mod final_state;
pub mod hash;
pub mod keys;
pub mod known_set;
pub mod operation;
pub mod peer;
pub mod requests;
pub mod slot;
pub mod validation;
pub mod worker;
pub mod worker_blocks;
pub mod worker_laws;
