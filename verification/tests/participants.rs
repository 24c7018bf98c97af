use blockchat::accounts::Role;
use blockchat::blockchain::{Block, BlockChain};
use blockchat::events::{Data, Event};
use blockchat::messages::{MessageData, NetworkMessage};
use blockchat::participants::{
    add_block, chain_is_better, genesis, recv_state_machine, replace_blockchain,
    users_state_machine,
};

use std::collections::HashSet;

fn hello(n: &str) -> Event {
    Event::new(1, Data::GroupMessage(String::from(n)))
}

#[test]
fn test_add_block_works() {
    let mut bc = BlockChain::new(None);
    let mut loose: Vec<Event> = Vec::new();
    let mut block: Block = Block::new(bc.last_hash());
    let event: Event = hello("Hello");
    block.add_event(event.duplicate());
    loose.push(event.duplicate());
    assert!(add_block(&mut bc, &mut loose, &block).is_ok());
}

#[test]
fn test_events_in_loose_events_removed() {
    let mut bc = BlockChain::new(None);
    let mut loose: Vec<Event> = Vec::new();
    let mut block: Block = Block::new(bc.last_hash());
    let event: Event = hello("Hello");
    block.add_event(event.duplicate());
    loose.push(event.duplicate());
    assert!(add_block(&mut bc, &mut loose, &block).is_ok());
    assert_eq!(loose.len(), 0);
    assert_eq!(bc.len(), 1);
}

#[test]
fn test_events_left_in_loose_events() {
    let mut bc = BlockChain::new(None);
    let mut loose: Vec<Event> = Vec::new();
    let mut block: Block = Block::new(bc.last_hash());
    let event1 = hello("Hello1");
    let event2 = hello("Hello2");
    block.add_event(event1.duplicate());
    loose.push(event1.duplicate());
    loose.push(event2.duplicate());

    assert!(add_block(&mut bc, &mut loose, &block).is_ok());

    // Check event 2 still in loose events
    assert_eq!(loose.len(), 1);
    assert!(loose[0].equals(&event2));
}

#[test]
fn test_replace_blockchain_works() {
    let mut bc = BlockChain::new(Some(String::from("mine.bin")));
    let mut new_bc: BlockChain = BlockChain::new(None);
    let mut block = Block::new(None);
    block.update_hash();
    assert_eq!(new_bc.append(block), Ok(true));
    replace_blockchain(&mut bc, &new_bc);
    assert_eq!(bc.len(), 1);
    assert!(bc.chain[0].equals(&new_bc.chain[0]));
    assert_eq!(bc.created_at, new_bc.created_at);
    assert_eq!(bc.save_location(), Some(String::from("mine.bin")));
}

#[test]
fn genesis_starts_an_empty_chain() {
    let mut bc = BlockChain::new(None);
    let b = genesis(&mut bc).unwrap();
    assert_eq!(bc.len(), 1);
    assert!(b.verify_hash());
    assert_eq!(b.prev_hash, None);
    assert!(genesis(&mut bc).is_err());
    assert_eq!(bc.len(), 1);
}

#[test]
fn user_relays_each_event_once() {
    let mut bc = BlockChain::new(None);
    let mut loose = Vec::new();
    let mut nonces = HashSet::new();
    let msg = NetworkMessage::new(MessageData::Event(hello("relay")));
    let first = users_state_machine(&mut bc, &mut loose, &mut nonces, &msg).unwrap();
    assert!(matches!(first.forward, Some(NetworkMessage { data: MessageData::Event(_) })));
    let second = users_state_machine(&mut bc, &mut loose, &mut nonces, &msg).unwrap();
    assert!(second.forward.is_none());
    assert_eq!(nonces.len(), 1);
    let third = recv_state_machine(Role::User, None, &mut bc, &mut loose, &mut nonces, &msg).unwrap();
    assert!(third.forward.is_none());
}

#[test]
fn miner_builds_block_at_threshold() {
    let mut bc = BlockChain::new(None);
    let mut loose = Vec::new();
    let mut nonces = HashSet::new();
    let m1 = NetworkMessage::new(MessageData::Event(hello("one")));
    let m2 = NetworkMessage::new(MessageData::Event(hello("two")));
    let r1 = recv_state_machine(Role::Miner, Some(2), &mut bc, &mut loose, &mut nonces, &m1).unwrap();
    assert!(r1.forward.is_none() && r1.appended.is_none());
    assert_eq!(loose.len(), 1);
    // The same event again is ignored.
    let again = recv_state_machine(Role::Miner, Some(2), &mut bc, &mut loose, &mut nonces, &m1).unwrap();
    assert!(again.forward.is_none());
    assert_eq!(loose.len(), 1);
    let r2 = recv_state_machine(Role::Miner, Some(2), &mut bc, &mut loose, &mut nonces, &m2).unwrap();
    let appended = r2.appended.expect("block appended");
    assert_eq!(appended.get_event_count(), 2);
    assert!(matches!(r2.forward, Some(NetworkMessage { data: MessageData::Block(_) })));
    assert_eq!(loose.len(), 0);
    assert_eq!(bc.len(), 1);
    assert_eq!(nonces.len(), 2);
    assert!(bc.validate_chain().is_ok());
}

#[test]
fn received_block_is_added_once() {
    let mut bc = BlockChain::new(None);
    let mut loose = vec![hello("pending")];
    let mut nonces = HashSet::new();
    let mut block = Block::new(None);
    block.add_event(loose[0].duplicate());
    let msg = NetworkMessage::new(MessageData::Block(block.duplicate()));
    let r = recv_state_machine(Role::User, None, &mut bc, &mut loose, &mut nonces, &msg).unwrap();
    assert!(r.appended.is_some());
    assert!(matches!(r.forward, Some(NetworkMessage { data: MessageData::Block(_) })));
    assert_eq!(loose.len(), 0);
    let r = recv_state_machine(Role::User, None, &mut bc, &mut loose, &mut nonces, &msg).unwrap();
    assert!(r.appended.is_none() && r.forward.is_none());
    assert_eq!(bc.len(), 1);
}

#[test]
fn longer_valid_chain_replaces_own() {
    let mut own = BlockChain::new(Some(String::from("own.bin")));
    let mut first = Block::new(None);
    first.update_hash();
    assert_eq!(own.append(first.duplicate()), Ok(true));
    let mut longer = own.duplicate();
    let mut second = Block::new(longer.last_hash());
    second.update_hash();
    assert_eq!(longer.append(second), Ok(true));
    assert!(chain_is_better(&own, &longer));
    assert!(!chain_is_better(&longer, &own));

    let mut loose = Vec::new();
    let mut nonces = HashSet::new();
    let msg = NetworkMessage::new(MessageData::State(longer.duplicate()));
    let r = users_state_machine(&mut own, &mut loose, &mut nonces, &msg).unwrap();
    assert!(r.replaced);
    assert_eq!(own.len(), 2);
    assert_eq!(own.save_location(), Some(String::from("own.bin")));

    // A chain that shares no block with ours does not replace it.
    let mut other = BlockChain::new(None);
    let mut a = Block::new(None);
    a.set_nonce(first.nonce.wrapping_add(1));
    assert_eq!(other.append(a), Ok(true));
    let mut b = Block::new(other.last_hash());
    b.update_hash();
    assert_eq!(other.append(b), Ok(true));
    let mut c = Block::new(other.last_hash());
    c.update_hash();
    assert_eq!(other.append(c), Ok(true));
    assert!(!chain_is_better(&own, &other));
}

#[test]
fn other_messages_change_nothing() {
    let mut bc = BlockChain::new(None);
    let mut loose = Vec::new();
    let mut nonces = HashSet::new();
    let msg = NetworkMessage::new(MessageData::Confirm);
    let r = recv_state_machine(Role::Miner, None, &mut bc, &mut loose, &mut nonces, &msg).unwrap();
    assert!(r.appended.is_none() && r.forward.is_none() && !r.replaced);
    assert_eq!(bc.len(), 0);
}

#[test]
fn user_passes_a_new_block_on() {
    let mut bc = BlockChain::new(None);
    let mut loose = vec![hello("pending")];
    let mut nonces = HashSet::new();
    let mut block = Block::new(None);
    block.add_event(loose[0].duplicate());
    let msg = NetworkMessage::new(MessageData::Block(block.duplicate()));
    let r = users_state_machine(&mut bc, &mut loose, &mut nonces, &msg).unwrap();
    assert!(r.appended.is_some());
    assert!(matches!(r.forward, Some(NetworkMessage { data: MessageData::Block(_) })));
    assert!(loose.is_empty());
    let r = users_state_machine(&mut bc, &mut loose, &mut nonces, &msg).unwrap();
    assert!(r.appended.is_none() && r.forward.is_none());
}

#[test]
fn miner_keeps_event_of_unknown_signer_below_threshold() {
    let mut bc = BlockChain::new(None);
    let mut loose = Vec::new();
    let mut nonces = HashSet::new();
    let mut event = hello("signed");
    event.sign(Some(vec![1, 2, 3]));
    let msg = NetworkMessage::new(MessageData::Event(event));
    let r = recv_state_machine(Role::Miner, Some(3), &mut bc, &mut loose, &mut nonces, &msg).unwrap();
    assert!(r.appended.is_none() && r.forward.is_none());
    assert_eq!(loose.len(), 1);
    assert_eq!(bc.len(), 0);
}

#[test]
fn block_of_unknown_signer_is_passed_on_but_not_appended() {
    let mut bc = BlockChain::new(None);
    let mut loose = Vec::new();
    let mut nonces = HashSet::new();
    let mut event = hello("signed");
    event.sign(Some(vec![1, 2, 3]));
    let mut block = Block::new(None);
    block.add_event(event);
    let msg = NetworkMessage::new(MessageData::Block(block));
    let r = users_state_machine(&mut bc, &mut loose, &mut nonces, &msg).unwrap();
    assert!(r.appended.is_none());
    assert!(matches!(r.forward, Some(NetworkMessage { data: MessageData::Block(_) })));
    assert_eq!(bc.len(), 0);
}
