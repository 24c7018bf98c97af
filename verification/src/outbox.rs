//! What a node does with the jobs that its tasks queue for the outside
//! world: messages to send to every connected node and connections to open.
//!
//! A message to send while the node has no connection is held back; a held
//! connection request is served before the next job is taken.  Sending and
//! connecting are left to the caller.
use vstd::prelude::*;

use crate::messages::{NetworkMessage, ProcessMessage};

verus! {

/// What the caller must do with a job.
#[derive(Debug)]
pub enum OutgoingAction {
    /// Send the message to every connected node.
    Broadcast(NetworkMessage),
    /// Open a connection with the node of this identifier and address.
    Connect(u128, String),
    /// Nothing now: the job was held back.
    Held,
    /// Nothing: the job asks for nothing.
    Idle,
}

/// Whether the job asks for a connection.
pub open spec fn is_connection(m: ProcessMessage) -> bool {
    m is NewConnection
}

/// Whether position `i` holds the first connection request of `q`.
pub open spec fn first_connection_at(q: Seq<ProcessMessage>, i: int) -> bool {
    &&& 0 <= i < q.len()
    &&& is_connection(q[i])
    &&& forall|j: int| 0 <= j < i ==> !is_connection(#[trigger] q[j])
}

/// Takes the first connection request out of the held jobs and gives its
/// identifier and address; `None`, leaving the jobs as they were, where none
/// asks for a connection.
pub fn next_held_connection(held: &mut Vec<ProcessMessage>) -> (r: Option<(u128, String)>)
    ensures
        r is None <==> forall|j: int| 0 <= j < old(held)@.len() ==> !is_connection(#[trigger] old(held)@[j]),
        r is None ==> final(held)@ == old(held)@,
        r matches Some((id, addr)) ==> exists|i: int| {
            &&& first_connection_at(old(held)@, i)
            &&& old(held)@[i] == ProcessMessage::NewConnection(id, addr)
            &&& final(held)@ == old(held)@.remove(i)
        },
{
    let mut i: usize = 0;
    while i < held.len()
        invariant
            held@ == old(held)@,
            0 <= i <= held@.len(),
            forall|j: int| 0 <= j < i ==> !is_connection(#[trigger] held@[j]),
        decreases held@.len() - i,
    {
        if let ProcessMessage::NewConnection(_, _) = &held[i] {
            assert(is_connection(held@[i as int]));
            assert(first_connection_at(old(held)@, i as int));
            let job = held.remove(i);
            return match job {
                ProcessMessage::NewConnection(id, addr) => Some((id, addr)),
                _ => {
                    assert(false);
                    None
                },
            };
        }
        i = i + 1;
    }
    None
}

/// Whether the node should ask the lookup service for addresses: it has no
/// connection and knows where the service is.
pub fn needs_lookup(connections: usize, lookup_address: &Option<String>) -> (r: bool)
    ensures
        r == (connections == 0 && lookup_address is Some),
{
    connections == 0 && lookup_address.is_some()
}

/// What to do with the next job, given how many connections the node has:
/// a message to send is sent to every connection, or held back (appended to
/// `held`) where there is none; a connection request is served; an empty
/// job asks for nothing.
pub fn outgoing_action(job: ProcessMessage, connections: usize, held: &mut Vec<ProcessMessage>) -> (r:
    OutgoingAction)
    ensures
        match job {
            ProcessMessage::SendMessage(m) => if connections == 0 {
                r is Held && final(held)@ == old(held)@.push(job)
            } else {
                r == OutgoingAction::Broadcast(m) && final(held)@ == old(held)@
            },
            ProcessMessage::NewConnection(id, addr) => r == OutgoingAction::Connect(id, addr)
                && final(held)@ == old(held)@,
            ProcessMessage::Blank => r is Idle && final(held)@ == old(held)@,
        },
{
    match job {
        ProcessMessage::SendMessage(m) => {
            if connections == 0 {
                held.push(ProcessMessage::SendMessage(m));
                OutgoingAction::Held
            } else {
                OutgoingAction::Broadcast(m)
            }
        },
        ProcessMessage::NewConnection(id, addr) => OutgoingAction::Connect(id, addr),
        ProcessMessage::Blank => OutgoingAction::Idle,
    }
}

} // verus!
