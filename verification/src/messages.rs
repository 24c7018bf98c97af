//! Messages between nodes and between the tasks of a node.
use vstd::prelude::*;

use crate::accounts::Role;
use crate::blockchain::{Block, BlockChain};
use crate::crypto::PublicKey;
use crate::events::Event;

verus! {

/// Message sent between nodes.
#[derive(Debug)]
pub struct NetworkMessage {
    /// What the message carries.
    pub data: MessageData,
}

impl NetworkMessage {
    /// A message carrying `data`.
    pub fn new(data: MessageData) -> (r: NetworkMessage)
        ensures
            r.data == data,
    {
        NetworkMessage { data }
    }
}

/// What a [`NetworkMessage`] carries.
#[derive(Debug)]
pub enum MessageData {
    /// An event to spread or to mine.
    Event(Event),
    /// A block to add to the chain.
    Block(Block),
    /// A whole chain.
    State(BlockChain),
    /// Identifier, public key and role, sent when a connection opens.
    InitialID(u128, PublicKey, Role),
    /// Acknowledges a message.
    Confirm,
    /// Ends a conversation.
    Finish,
    /// Registers identifier, address and role with the lookup service.
    LookUpReg(u128, String, Role),
    /// Asks for the address of the node with this identifier.
    RequestAddress(u128),
    /// Asks for up to four addresses of other nodes, of the given role if
    /// one is given.
    GeneralAddrRequest(u128, Option<Role>),
    /// Identifiers and addresses of other nodes.
    PeerAddresses(Vec<(u128, String)>),
    /// Identifier and address of the node that was asked for.
    PeerAddress((u128, String)),
    /// Reports a node that misbehaved.
    Strike(u128),
    /// No node matches the request.
    NoAddr,
    /// Nothing.
    Blank,
}

/// Message between the tasks of a node.
#[derive(Debug)]
pub enum ProcessMessage {
    /// Nothing.
    Blank,
    /// Open a connection with the node of this identifier and address.
    NewConnection(u128, String),
    /// Send the message to every connected node.
    SendMessage(NetworkMessage),
}

} // verus!
