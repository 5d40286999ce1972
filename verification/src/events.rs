//! What the protocol worker exchanges with the network layer, the consensus engine and
//! the pool.

use vstd::prelude::*;
use crate::block::{Block, BlockHeader, BlockHeaderView, BlockId, BlockView};
use crate::endorsement::{Endorsement, EndorsementId};
use crate::keys::PublicKey;
use crate::operation::{Operation, OperationId};

verus! {

/// The name of a peer: its public key.
#[derive(Clone, Copy, Debug, PartialEq, Eq, Hash)]
pub struct NodeId(pub PublicKey);

impl NodeId {
    /// Whether two names are the same.
    pub fn equals(&self, other: &NodeId) -> (same: bool)
        ensures
            same == (*self == *other),
    {
        self.0.equals(&other.0)
    }
}

/// An order to the network layer.
#[derive(Debug, Clone)]
pub enum NetworkCommand {
    SendBlock { peer: NodeId, block_id: BlockId },
    SendBlockHeader { peer: NodeId, header: BlockHeader },
    SendOperations { peer: NodeId, operations: Vec<Operation> },
    SendEndorsements { peer: NodeId, endorsements: Vec<Endorsement> },
    AskForBlock { peer: NodeId, ids: Vec<BlockId> },
    Ban { peer: NodeId },
}

/// The value of an order to the network layer.
pub enum NetworkCommandView {
    SendBlock { peer: NodeId, block_id: BlockId },
    SendBlockHeader { peer: NodeId, header: BlockHeaderView },
    SendOperations { peer: NodeId, operations: Seq<Operation> },
    SendEndorsements { peer: NodeId, endorsements: Seq<Endorsement> },
    AskForBlock { peer: NodeId, ids: Seq<BlockId> },
    Ban { peer: NodeId },
}

impl View for NetworkCommand {
    type V = NetworkCommandView;

    open spec fn view(&self) -> NetworkCommandView {
        match *self {
            NetworkCommand::SendBlock { peer, block_id } => NetworkCommandView::SendBlock {
                peer,
                block_id,
            },
            NetworkCommand::SendBlockHeader { peer, header } => NetworkCommandView::SendBlockHeader {
                peer,
                header: header@,
            },
            NetworkCommand::SendOperations { peer, operations } => NetworkCommandView::SendOperations {
                peer,
                operations: operations@,
            },
            NetworkCommand::SendEndorsements {
                peer,
                endorsements,
            } => NetworkCommandView::SendEndorsements { peer, endorsements: endorsements@ },
            NetworkCommand::AskForBlock { peer, ids } => NetworkCommandView::AskForBlock {
                peer,
                ids: ids@,
            },
            NetworkCommand::Ban { peer } => NetworkCommandView::Ban { peer },
        }
    }
}

/// The values of a run of orders.
pub open spec fn command_views(commands: Seq<NetworkCommand>) -> Seq<NetworkCommandView> {
    Seq::new(commands.len(), |i: int| commands[i]@)
}

/// A message to the consensus engine.
#[derive(Debug, Clone)]
pub enum ProtocolEvent {
    ReceivedBlockHeader { id: BlockId, header: BlockHeader, source: NodeId },
    ReceivedBlock { id: BlockId, block: Block, source: NodeId },
    GetBlocks { ids: Vec<BlockId>, requester: NodeId },
}

/// The value of a message to the consensus engine.
pub enum ProtocolEventView {
    ReceivedBlockHeader { id: BlockId, header: BlockHeaderView, source: NodeId },
    ReceivedBlock { id: BlockId, block: BlockView, source: NodeId },
    GetBlocks { ids: Seq<BlockId>, requester: NodeId },
}

impl View for ProtocolEvent {
    type V = ProtocolEventView;

    open spec fn view(&self) -> ProtocolEventView {
        match *self {
            ProtocolEvent::ReceivedBlockHeader {
                id,
                header,
                source,
            } => ProtocolEventView::ReceivedBlockHeader { id, header: header@, source },
            ProtocolEvent::ReceivedBlock { id, block, source } => ProtocolEventView::ReceivedBlock {
                id,
                block: block@,
                source,
            },
            ProtocolEvent::GetBlocks { ids, requester } => ProtocolEventView::GetBlocks {
                ids: ids@,
                requester,
            },
        }
    }
}

/// A message to the pool.
#[derive(Debug, Clone)]
pub enum ProtocolPoolEvent {
    ReceivedOperations { propagate: bool, operations: Vec<(OperationId, Operation)>, source: NodeId },
    ReceivedEndorsements {
        propagate: bool,
        endorsements: Vec<(EndorsementId, Endorsement)>,
        source: NodeId,
    },
}

/// The value of a message to the pool.
pub enum ProtocolPoolEventView {
    ReceivedOperations { propagate: bool, operations: Seq<(OperationId, Operation)>, source: NodeId },
    ReceivedEndorsements {
        propagate: bool,
        endorsements: Seq<(EndorsementId, Endorsement)>,
        source: NodeId,
    },
}

impl View for ProtocolPoolEvent {
    type V = ProtocolPoolEventView;

    open spec fn view(&self) -> ProtocolPoolEventView {
        match *self {
            ProtocolPoolEvent::ReceivedOperations {
                propagate,
                operations,
                source,
            } => ProtocolPoolEventView::ReceivedOperations {
                propagate,
                operations: operations@,
                source,
            },
            ProtocolPoolEvent::ReceivedEndorsements {
                propagate,
                endorsements,
                source,
            } => ProtocolPoolEventView::ReceivedEndorsements {
                propagate,
                endorsements: endorsements@,
                source,
            },
        }
    }
}

} // verus!
