//! Limits that the codec reads while it encodes and decodes.

use vstd::prelude::*;

verus! {

/// The serialization context: protocol limits fixed at start-up and handed, read-only,
/// to every encoder and decoder.
#[derive(Clone, Copy, Debug, PartialEq, Eq)]
pub struct SerializationContext {
    /// Largest encoded block, in bytes.
    pub max_block_size: u32,
    /// Largest number of operations in a block.
    pub max_operations_per_block: u32,
    /// Number of threads, which is also the number of parents of a non-genesis block.
    pub thread_count: u8,
    /// Largest number of peers advertised in one message.
    pub max_advertise_length: u32,
    /// Largest network message, in bytes.
    pub max_message_size: u32,
    /// Largest number of blocks in a bootstrap graph.
    pub max_bootstrap_blocks: u32,
    /// Largest number of cliques in a bootstrap graph.
    pub max_bootstrap_cliques: u32,
    /// Largest number of dependencies of a bootstrap block.
    pub max_bootstrap_deps: u32,
    /// Largest number of children of a bootstrap block.
    pub max_bootstrap_children: u32,
    /// Largest number of proof-of-stake cycles in a bootstrap state.
    pub max_bootstrap_pos_cycles: u32,
    /// Largest number of proof-of-stake entries in a bootstrap state.
    pub max_bootstrap_pos_entries: u32,
    /// Largest number of block identifiers asked for in one message.
    pub max_ask_blocks_per_message: u32,
    /// Largest number of operations in one message.
    pub max_operations_per_message: u32,
    /// Largest number of endorsements in one message.
    pub max_endorsements_per_message: u32,
    /// Largest bootstrap message, in bytes.
    pub max_bootstrap_message_size: u32,
    /// Largest number of endorsements in a block header.
    pub endorsement_count: u32,
}

} // verus!
