//! What a node does with the messages it receives.
//!
//! The node's state is its chain, the events that wait for a block (the
//! loose events) and the nonces of the events it has passed on.  Each
//! function below takes that state and one message, changes the state, and
//! says what the node must do next: hand a new block to the application,
//! send a message on, or save a chain that replaced its own.  Sending,
//! saving and locking are left to the caller.
use vstd::prelude::*;

use std::collections::HashSet;

use crate::accounts::Role;
use crate::blockchain::{
    all_accepted, append_outcome, blocks_view, chain_has_event, chain_valid, common_prefix_len,
    hash_consistent, last_hash_of, Block, BlockChain, BlockView, ChainError,
};
use crate::crypto::{PublicKey, Timestamp};
use crate::events::{events_contain, events_copy, events_view, Event, EventView};
use crate::messages::{MessageData, NetworkMessage};

verus! {

broadcast use vstd::std_specs::hash::group_hash_axioms;

/// Abstract state of a node.
pub struct NodeView {
    pub blocks: Seq<BlockView>,
    pub users: Map<u128, PublicKey>,
    pub created: Timestamp,
    pub location: Option<Seq<char>>,
    pub pending: Seq<EventView>,
    pub loose: Seq<EventView>,
    pub nonces: Set<u128>,
}

/// Abstract state of a node with this chain, loose events and nonces.
pub open spec fn node_view(bc: BlockChain, loose: Seq<Event>, nonces: Set<u128>) -> NodeView {
    NodeView {
        blocks: bc.blocks(),
        users: bc.user_keys(),
        created: bc.created(),
        location: bc.location(),
        pending: bc.pending(),
        loose: events_view(loose),
        nonces,
    }
}

/// What a node must do after a message.
#[derive(Debug)]
pub struct Reaction {
    /// Block that entered the chain, for the application.
    pub appended: Option<Block>,
    /// Message to send to every connected node.
    pub forward: Option<NetworkMessage>,
    /// Whether a received chain replaced the node's own.
    pub replaced: bool,
}

/// Abstract value of a message that a node sends on.
pub enum Outgoing {
    Event(EventView),
    Block(BlockView),
    Other,
}

/// Abstract value of the message a node sends on, if any.
pub open spec fn outgoing(m: Option<NetworkMessage>) -> Option<Outgoing> {
    match m {
        Some(msg) => Some(
            match msg.data {
                MessageData::Event(e) => Outgoing::Event(e@),
                MessageData::Block(b) => Outgoing::Block(b@),
                _ => Outgoing::Other,
            },
        ),
        None => None,
    }
}

/// Abstract value of an optional block.
pub open spec fn opt_block_view(b: Option<Block>) -> Option<BlockView> {
    match b {
        Some(x) => Some(x@),
        None => None,
    }
}

/// The loose events that are not among `events`, in their order.
pub open spec fn drop_contained(loose: Seq<EventView>, events: Seq<EventView>) -> Seq<EventView>
    decreases loose.len(),
{
    if loose.len() == 0 {
        seq![]
    } else {
        let rest = drop_contained(loose.drop_last(), events);
        if events.contains(loose.last()) {
            rest
        } else {
            rest.push(loose.last())
        }
    }
}

/// Whether a received chain should replace the node's own: it is valid,
/// longer, and shares more than half of the node's blocks.
pub open spec fn better_chain(own: Seq<BlockView>, new: Seq<BlockView>) -> bool {
    &&& chain_valid(new)
    &&& new.len() > own.len()
    &&& 2 * common_prefix_len(own, new) > own.len()
}

/// Passing an event on: the first time its nonce is seen, the nonce is
/// recorded and the event goes on; after that, nothing happens.
pub open spec fn relay_step(pre: NodeView, post: NodeView, e: EventView, fwd: Option<Outgoing>) -> bool {
    if pre.nonces.contains(e.nonce) {
        post == pre && fwd is None
    } else {
        post == NodeView { nonces: pre.nonces.insert(e.nonce), ..pre } && fwd == Some(
            Outgoing::Event(e),
        )
    }
}

/// Whether a miner has not seen the event yet: neither its nonce, nor the
/// event among the loose events or in the chain.
pub open spec fn event_is_new(pre: NodeView, e: EventView) -> bool {
    &&& !pre.nonces.contains(e.nonce)
    &&& !pre.loose.contains(e)
    &&& !chain_has_event(pre.blocks, e)
}

/// A miner receiving an event: a new event joins the loose events; once
/// there are `threshold` of them, they become a block after the last one,
/// which is appended where its events pass the check of their authors' keys
/// and sent on in any case, and the loose events start afresh.
pub open spec fn miner_event_step(
    pre: NodeView,
    post: NodeView,
    e: EventView,
    threshold: nat,
    appended: Option<BlockView>,
    fwd: Option<Outgoing>,
) -> bool {
    if !event_is_new(pre, e) {
        post == pre && appended is None && fwd is None
    } else if pre.loose.len() + 1 < threshold {
        post == NodeView { loose: pre.loose.push(e), ..pre } && appended is None && fwd is None
    } else {
        match fwd {
            Some(Outgoing::Block(b)) => {
                let accepted = all_accepted(b.events, pre.users);
                &&& b.events == pre.loose.push(e)
                &&& b.prev_hash == last_hash_of(pre.blocks)
                &&& hash_consistent(b)
                &&& post == NodeView {
                    blocks: if accepted {
                        pre.blocks.push(b)
                    } else {
                        pre.blocks
                    },
                    loose: seq![],
                    nonces: pre.nonces.insert(e.nonce).insert(b.nonce),
                    ..pre
                }
                &&& appended == if accepted {
                    Some(b)
                } else {
                    None
                }
            },
            _ => false,
        }
    }
}

/// Adding a received block: an error where `append` refuses it, leaving the
/// state as it was; else the chain as `append` leaves it, and the loose
/// events that the block holds are dropped.
pub open spec fn add_block_step(
    pre: NodeView,
    post: NodeView,
    b: BlockView,
    appended: Option<BlockView>,
    result: Result<(), ChainError>,
) -> bool {
    match append_outcome(pre.blocks, pre.users, b) {
        Err(err) => result == Err::<(), ChainError>(err) && post == pre && appended is None,
        Ok(accepted) => {
            &&& result is Ok
            &&& post == NodeView {
                blocks: if accepted {
                    pre.blocks.push(b)
                } else {
                    pre.blocks
                },
                loose: drop_contained(pre.loose, b.events),
                ..pre
            }
            &&& appended == if accepted {
                Some(b)
            } else {
                None
            }
        },
    }
}

/// The node state with its chain replaced by `new`; `keep_location` keeps
/// the place where the node saves its chain.
pub open spec fn with_chain(pre: NodeView, new: BlockChain, keep_location: bool) -> NodeView {
    NodeView {
        blocks: new.blocks(),
        users: new.user_keys(),
        created: new.created(),
        location: if keep_location {
            pre.location
        } else {
            new.location()
        },
        pending: new.pending(),
        ..pre
    }
}

/// Whether a reaction asks for nothing.
pub open spec fn reaction_is_quiet(r: Reaction) -> bool {
    r.appended is None && r.forward is None && !r.replaced
}

/// Records the nonce of an event the first time it is seen; says whether it
/// was new.
fn note_nonce(nonces: &mut HashSet<u128>, nonce: u128) -> (r: bool)
    ensures
        r == !old(nonces)@.contains(nonce),
        final(nonces)@ == if r {
            old(nonces)@.insert(nonce)
        } else {
            old(nonces)@
        },
{
    if nonces.contains(&nonce) {
        false
    } else {
        nonces.insert(nonce);
        true
    }
}

/// Drops the loose events that `events` holds, keeping the order of the
/// others.
fn remove_contained(loose: &mut Vec<Event>, events: &Vec<Event>)
    ensures
        events_view(final(loose)@) == drop_contained(events_view(old(loose)@), events_view(events@)),
{
    let ghost l = events_view(loose@);
    let ghost ev = events_view(events@);
    let mut kept: Vec<Event> = Vec::new();
    let mut i: usize = 0;
    while i < loose.len()
        invariant
            l == events_view(loose@),
            ev == events_view(events@),
            0 <= i <= l.len(),
            events_view(kept@) == drop_contained(l.take(i as int), ev),
        decreases l.len() - i,
    {
        assert(l.take(i + 1).drop_last() =~= l.take(i as int));
        assert(l.take(i + 1).last() == loose@[i as int]@);
        if !events_contain(events, &loose[i]) {
            let ghost before = events_view(kept@);
            kept.push(loose[i].duplicate());
            assert(events_view(kept@) =~= before.push(loose@[i as int]@));
        }
        i = i + 1;
    }
    assert(l.take(i as int) =~= l);
    *loose = kept;
}

/// Whether `new` should replace the chain `bc`.
pub fn chain_is_better(bc: &BlockChain, new: &BlockChain) -> (r: bool)
    ensures
        r == better_chain(bc.blocks(), new.blocks()),
{
    if new.validate_chain().is_err() {
        return false;
    }
    let own_len = bc.len();
    if new.len() <= own_len {
        return false;
    }
    let overlap = bc.chain_overlap_len(new);
    proof {
        crate::blockchain::lemma_overlap_symmetric(bc.blocks(), new.blocks());
    }
    overlap as u128 * 2 > own_len as u128
}

/// Adds a received block to the chain and drops the loose events that it
/// holds; says whether the block entered the chain.
pub fn add_block(bc: &mut BlockChain, loose: &mut Vec<Event>, block: &Block) -> (r: Result<
    bool,
    ChainError,
>)
    ensures
        add_block_step(
            node_view(*old(bc), old(loose)@, Set::empty()),
            node_view(*final(bc), final(loose)@, Set::empty()),
            block@,
            match r {
                Ok(true) => Some(block@),
                _ => None,
            },
            match r {
                Ok(_) => Ok(()),
                Err(e) => Err(e),
            },
        ),
{
    let appended = bc.append(block.duplicate());
    match appended {
        Err(e) => Err(e),
        Ok(added) => {
            remove_contained(loose, &block.events);
            Ok(added)
        },
    }
}

/// Replaces the chain by a copy of `new_bc`, keeping the place where it is
/// saved.
pub fn replace_blockchain(bc: &mut BlockChain, new_bc: &BlockChain)
    ensures
        final(bc).blocks() == new_bc.blocks(),
        final(bc).user_keys() == new_bc.user_keys(),
        final(bc).created() == new_bc.created(),
        final(bc).pending() == new_bc.pending(),
        final(bc).location() == old(bc).location(),
{
    let mut n = new_bc.duplicate();
    n.set_save_location(bc.save_location());
    *bc = n;
}

/// Starts a miner's chain with its genesis block: an empty block with no
/// predecessor and its hash stored, appended to `bc`; refused where the
/// chain's last block has a hash.
pub fn genesis(bc: &mut BlockChain) -> (r: Result<Block, ChainError>)
    ensures
        r is Ok <==> last_hash_of(old(bc).blocks()) is None,
        match r {
            Ok(b) => {
                &&& b@.events.len() == 0
                &&& b@.prev_hash is None
                &&& hash_consistent(b@)
                &&& final(bc).blocks() == old(bc).blocks().push(b@)
            },
            Err(e) => e == ChainError::PrevHash && final(bc).blocks() == old(bc).blocks(),
        },
        final(bc).user_keys() == old(bc).user_keys(),
        final(bc).created() == old(bc).created(),
        final(bc).location() == old(bc).location(),
        final(bc).pending() == old(bc).pending(),
{
    let mut block = Block::new(None);
    block.update_hash();
    assert(block@.events =~= Seq::<EventView>::empty());
    let appended = block.duplicate();
    match bc.append(block) {
        Ok(_) => Ok(appended),
        Err(e) => Err(e),
    }
}

/// A miner receiving an event; see [`miner_event_step`].
fn miner_event(
    bc: &mut BlockChain,
    loose: &mut Vec<Event>,
    nonces: &mut HashSet<u128>,
    threshold: usize,
    e: &Event,
) -> (r: Reaction)
    ensures
        miner_event_step(
            node_view(*old(bc), old(loose)@, old(nonces)@),
            node_view(*final(bc), final(loose)@, final(nonces)@),
            e@,
            threshold as nat,
            opt_block_view(r.appended),
            outgoing(r.forward),
        ),
        !r.replaced,
{
    let ghost pre = node_view(*bc, loose@, nonces@);
    let quiet = Reaction { appended: None, forward: None, replaced: false };
    if nonces.contains(&e.nonce) || events_contain(loose, e) || bc.contains(e) {
        return quiet;
    }
    loose.push(e.duplicate());
    assert(events_view(loose@) =~= pre.loose.push(e@));
    if loose.len() < threshold {
        return quiet;
    }
    let last_hash = bc.last_hash();
    let mut block = Block::new(last_hash);
    block.add_events(events_copy(loose));
    let forwarded = block.duplicate();
    let appended = bc.append(block.duplicate());
    let added = match appended {
        Ok(a) => a,
        Err(_) => {
            assert(false);
            false
        },
    };
    *loose = Vec::new();
    assert(events_view(loose@) =~= Seq::<EventView>::empty());
    nonces.insert(e.nonce);
    nonces.insert(block.nonce);
    Reaction {
        appended: if added {
            Some(block)
        } else {
            None
        },
        forward: Some(NetworkMessage::new(MessageData::Block(forwarded))),
        replaced: false,
    }
}

/// Handles a message from another node.  A miner gathers new events into
/// blocks of the profile's size (a hundred by default); any other node
/// passes an event on the first time it sees it.  A block not yet in the
/// chain is added, its events leave the loose events, and it is passed on.
/// A received chain replaces the node's own, wholesale, where it is
/// [`better_chain`].  Other messages change nothing.
pub fn recv_state_machine(
    role: Role,
    block_size: Option<usize>,
    bc: &mut BlockChain,
    loose: &mut Vec<Event>,
    nonces: &mut HashSet<u128>,
    message: &NetworkMessage,
) -> (r: Result<Reaction, ChainError>)
    ensures
        ({
            let pre = node_view(*old(bc), old(loose)@, old(nonces)@);
            let post = node_view(*final(bc), final(loose)@, final(nonces)@);
            match message.data {
                MessageData::Event(e) => r matches Ok(reaction) && !reaction.replaced && if role
                    == Role::Miner {
                    miner_event_step(
                        pre,
                        post,
                        e@,
                        match block_size {
                            Some(s) => s as nat,
                            None => 100,
                        },
                        opt_block_view(reaction.appended),
                        outgoing(reaction.forward),
                    )
                } else {
                    relay_step(pre, post, e@, outgoing(reaction.forward))
                        && reaction.appended is None
                },
                MessageData::Block(b) => if pre.blocks.contains(b@) {
                    (r matches Ok(reaction) && reaction_is_quiet(reaction)) && post == pre
                } else {
                    add_block_step(
                        pre,
                        post,
                        b@,
                        match r {
                            Ok(reaction) => opt_block_view(reaction.appended),
                            Err(_) => None,
                        },
                        match r {
                            Ok(_) => Ok(()),
                            Err(e) => Err(e),
                        },
                    ) && (r matches Ok(reaction) ==> outgoing(reaction.forward) == Some(
                        Outgoing::Block(b@),
                    ) && !reaction.replaced)
                },
                MessageData::State(new) => r matches Ok(reaction) && reaction.appended is None
                    && reaction.forward is None && reaction.replaced == better_chain(
                    pre.blocks,
                    new.blocks(),
                ) && post == if reaction.replaced {
                    with_chain(pre, new, false)
                } else {
                    pre
                },
                _ => (r matches Ok(reaction) && reaction_is_quiet(reaction)) && post == pre,
            }
        }),
{
    let quiet = Reaction { appended: None, forward: None, replaced: false };
    match &message.data {
        MessageData::Event(e) => {
            if role == Role::Miner {
                let threshold: usize = match block_size {
                    Some(s) => s,
                    None => 100,
                };
                Ok(miner_event(bc, loose, nonces, threshold, e))
            } else {
                if note_nonce(nonces, e.nonce) {
                    Ok(
                        Reaction {
                            appended: None,
                            forward: Some(NetworkMessage::new(MessageData::Event(e.duplicate()))),
                            replaced: false,
                        },
                    )
                } else {
                    Ok(quiet)
                }
            }
        },
        MessageData::Block(b) => {
            if bc.in_chain(b) {
                return Ok(quiet);
            }
            let added = add_block(bc, loose, b)?;
            Ok(
                Reaction {
                    appended: if added {
                        Some(b.duplicate())
                    } else {
                        None
                    },
                    forward: Some(NetworkMessage::new(MessageData::Block(b.duplicate()))),
                    replaced: false,
                },
            )
        },
        MessageData::State(new) => {
            if chain_is_better(bc, new) {
                *bc = new.duplicate();
                Ok(Reaction { appended: None, forward: None, replaced: true })
            } else {
                Ok(quiet)
            }
        },
        _ => Ok(quiet),
    }
}

/// Handles a message from another node at a node of role `User`: an event
/// is passed on the first time it is seen; a block not yet in the chain is
/// added, its events leave the loose events, and it is passed on; a received
/// chain that is
/// [`better_chain`] replaces the node's own, which keeps the place where it
/// is saved (and must then be saved there).  Other messages change nothing.
pub fn users_state_machine(
    bc: &mut BlockChain,
    loose: &mut Vec<Event>,
    nonces: &mut HashSet<u128>,
    message: &NetworkMessage,
) -> (r: Result<Reaction, ChainError>)
    ensures
        ({
            let pre = node_view(*old(bc), old(loose)@, old(nonces)@);
            let post = node_view(*final(bc), final(loose)@, final(nonces)@);
            match message.data {
                MessageData::Event(e) => r matches Ok(reaction) && relay_step(
                    pre,
                    post,
                    e@,
                    outgoing(reaction.forward),
                ) && reaction.appended is None && !reaction.replaced,
                MessageData::Block(b) => if pre.blocks.contains(b@) {
                    (r matches Ok(reaction) && reaction_is_quiet(reaction)) && post == pre
                } else {
                    add_block_step(
                        pre,
                        post,
                        b@,
                        match r {
                            Ok(reaction) => opt_block_view(reaction.appended),
                            Err(_) => None,
                        },
                        match r {
                            Ok(_) => Ok(()),
                            Err(e) => Err(e),
                        },
                    ) && (r matches Ok(reaction) ==> outgoing(reaction.forward) == Some(
                        Outgoing::Block(b@),
                    ) && !reaction.replaced)
                },
                MessageData::State(new) => r matches Ok(reaction) && reaction.appended is None
                    && reaction.forward is None && reaction.replaced == better_chain(
                    pre.blocks,
                    new.blocks(),
                ) && post == if reaction.replaced {
                    with_chain(pre, new, true)
                } else {
                    pre
                },
                _ => (r matches Ok(reaction) && reaction_is_quiet(reaction)) && post == pre,
            }
        }),
{
    let quiet = Reaction { appended: None, forward: None, replaced: false };
    match &message.data {
        MessageData::Event(e) => {
            if note_nonce(nonces, e.nonce) {
                Ok(
                    Reaction {
                        appended: None,
                        forward: Some(NetworkMessage::new(MessageData::Event(e.duplicate()))),
                        replaced: false,
                    },
                )
            } else {
                Ok(quiet)
            }
        },
        MessageData::Block(b) => {
            if bc.in_chain(b) {
                return Ok(quiet);
            }
            let added = add_block(bc, loose, b)?;
            Ok(
                Reaction {
                    appended: if added {
                        Some(b.duplicate())
                    } else {
                        None
                    },
                    forward: Some(NetworkMessage::new(MessageData::Block(b.duplicate()))),
                    replaced: false,
                },
            )
        },
        MessageData::State(new) => {
            if chain_is_better(bc, new) {
                replace_blockchain(bc, new);
                Ok(Reaction { appended: None, forward: None, replaced: true })
            } else {
                Ok(quiet)
            }
        },
        _ => Ok(quiet),
    }
}

// ---------------------------------------------------------------------
// Laws.

/// Passing events on is idempotent: once an event has been passed on, the
/// same event again changes nothing and is not passed on.
pub proof fn lemma_relay_idempotent(pre: NodeView, mid: NodeView, post: NodeView, e: EventView, f1: Option<Outgoing>, f2: Option<Outgoing>)
    requires
        relay_step(pre, mid, e, f1),
        relay_step(mid, post, e, f2),
    ensures
        post == mid,
        f2 is None,
{
}

/// Dropping the events of a block keeps exactly the loose events that the
/// block does not hold.
pub proof fn lemma_drop_contained(loose: Seq<EventView>, events: Seq<EventView>, x: EventView)
    ensures
        drop_contained(loose, events).contains(x) <==> (loose.contains(x) && !events.contains(x)),
    decreases loose.len(),
{
    if loose.len() > 0 {
        lemma_drop_contained(loose.drop_last(), events, x);
        let rest = drop_contained(loose.drop_last(), events);
        if loose.contains(x) && !events.contains(x) && x != loose.last() {
            let k = choose|k: int| 0 <= k < loose.len() && loose[k] == x;
            assert(loose.drop_last()[k] == x);
        }
        if loose.drop_last().contains(x) {
            let k = choose|k: int| 0 <= k < loose.drop_last().len() && loose.drop_last()[k] == x;
            assert(loose[k] == x);
        }
        if !events.contains(loose.last()) {
            assert(rest.push(loose.last())[rest.len() as int] == loose.last());
            if rest.push(loose.last()).contains(x) && x != loose.last() {
                let k = choose|k: int| 0 <= k < rest.push(loose.last()).len() && rest.push(loose.last())[k] == x;
                assert(rest[k] == x);
            }
            if rest.contains(x) {
                let k = choose|k: int| 0 <= k < rest.len() && rest[k] == x;
                assert(rest.push(loose.last())[k] == x);
            }
        }
        assert(loose[loose.len() - 1] == loose.last());
    }
}

/// A miner's handling of an event keeps its chain valid: the only block it
/// may append has a consistent hash and names the last block.
pub proof fn lemma_miner_step_keeps_chain_valid(
    pre: NodeView,
    post: NodeView,
    e: EventView,
    threshold: nat,
    appended: Option<BlockView>,
    fwd: Option<Outgoing>,
)
    requires
        chain_valid(pre.blocks),
        miner_event_step(pre, post, e, threshold, appended, fwd),
    ensures
        chain_valid(post.blocks),
{
    if event_is_new(pre, e) && pre.loose.len() + 1 >= threshold {
        if let Some(Outgoing::Block(b)) = fwd {
            if all_accepted(b.events, pre.users) {
                crate::blockchain::lemma_append_keeps_chain_valid(pre.blocks, pre.users, b);
            }
        }
    }
}

/// A miner's blocks hold exactly as many events as its block size: while
/// fewer events than that are loose, each new event either joins them or
/// completes a block of that size, and fewer than that stay loose.
pub proof fn lemma_miner_blocks_have_block_size(
    pre: NodeView,
    post: NodeView,
    e: EventView,
    threshold: nat,
    appended: Option<BlockView>,
    fwd: Option<Outgoing>,
)
    requires
        threshold >= 1,
        pre.loose.len() < threshold,
        miner_event_step(pre, post, e, threshold, appended, fwd),
    ensures
        post.loose.len() < threshold,
        fwd matches Some(Outgoing::Block(b)) ==> b.events.len() == threshold,
{
}

/// Adding a received block keeps the chain valid.
pub proof fn lemma_add_block_keeps_chain_valid(
    pre: NodeView,
    post: NodeView,
    b: BlockView,
    appended: Option<BlockView>,
    result: Result<(), ChainError>,
)
    requires
        chain_valid(pre.blocks),
        add_block_step(pre, post, b, appended, result),
    ensures
        chain_valid(post.blocks),
{
    if append_outcome(pre.blocks, pre.users, b) == Ok::<bool, ChainError>(true) {
        crate::blockchain::lemma_append_keeps_chain_valid(pre.blocks, pre.users, b);
    }
}

/// A chain that replaces the node's own is valid, whatever the node's own
/// was.
pub proof fn lemma_replacement_valid(pre: NodeView, new: BlockChain, keep_location: bool)
    requires
        better_chain(pre.blocks, new.blocks()),
    ensures
        chain_valid(with_chain(pre, new, keep_location).blocks),
{
}

/// A chain can only be replaced by a strictly longer one.
pub proof fn lemma_better_chain_longer(own: Seq<BlockView>, new: Seq<BlockView>)
    requires
        better_chain(own, new),
    ensures
        new.len() > own.len(),
        chain_valid(new),
{
}

/// A miner takes an event at most once: an event whose nonce it has seen,
/// that waits among its loose events, or that some block of its chain
/// already holds leaves its state as it was, and nothing is appended or
/// sent on.
pub proof fn lemma_miner_ignores_known_event(
    pre: NodeView,
    post: NodeView,
    e: EventView,
    threshold: nat,
    appended: Option<BlockView>,
    fwd: Option<Outgoing>,
)
    requires
        miner_event_step(pre, post, e, threshold, appended, fwd),
        pre.nonces.contains(e.nonce) || (exists|k: int| 0 <= k < pre.loose.len() && pre.loose[k]
            == e) || (exists|i: int, k: int|
            0 <= i < pre.blocks.len() && 0 <= k < pre.blocks[i].events.len()
                && pre.blocks[i].events[k] == e),
    ensures
        post == pre,
        appended is None,
        fwd is None,
{
    if exists|k: int| 0 <= k < pre.loose.len() && pre.loose[k] == e {
        let k = choose|k: int| 0 <= k < pre.loose.len() && pre.loose[k] == e;
        assert(pre.loose.contains(e));
    }
    if exists|i: int, k: int|
        0 <= i < pre.blocks.len() && 0 <= k < pre.blocks[i].events.len() && pre.blocks[i].events[k]
            == e {
        let (i, k) = choose|i: int, k: int|
            0 <= i < pre.blocks.len() && 0 <= k < pre.blocks[i].events.len()
                && pre.blocks[i].events[k] == e;
        assert(pre.blocks[i].events.contains(e));
        assert(chain_has_event(pre.blocks, e));
    }
}

/// Blocks that two chains share from the start are equal, position by
/// position, up to their shared prefix.
pub proof fn lemma_common_prefix_equal(a: Seq<BlockView>, b: Seq<BlockView>, i: int)
    requires
        0 <= i < common_prefix_len(a, b),
    ensures
        i < a.len(),
        i < b.len(),
        a[i] == b[i],
    decreases a.len(),
{
    if i > 0 {
        lemma_common_prefix_equal(a.drop_first(), b.drop_first(), i - 1);
    }
}

/// Two chains that differ at position `k` share at most `k` leading blocks.
pub proof fn lemma_common_prefix_bounded(a: Seq<BlockView>, b: Seq<BlockView>, k: int)
    requires
        0 <= k < a.len(),
        k < b.len(),
        a[k] != b[k],
    ensures
        common_prefix_len(a, b) <= k,
{
    if common_prefix_len(a, b) > k {
        lemma_common_prefix_equal(a, b, k);
    }
}

/// A received chain replaces the node's own only where it is valid,
/// strictly longer, and holds the node's own blocks, unchanged and in
/// place, over more than half of the node's chain: every position `i`
/// with `2 * i <= own.len()` (that the node's chain has) holds the same
/// block in both.
pub proof fn lemma_replacement_keeps_majority(own: Seq<BlockView>, new: Seq<BlockView>)
    requires
        better_chain(own, new),
    ensures
        chain_valid(new),
        new.len() > own.len(),
        forall|i: int| 0 <= i < own.len() && 2 * i <= own.len() ==> #[trigger] new[i] == own[i],
{
    assert forall|i: int| 0 <= i < own.len() && 2 * i <= own.len() implies #[trigger] new[i]
        == own[i] by {
        lemma_common_prefix_equal(own, new, i);
    }
}

/// A received chain that differs from the node's own at some position `k`
/// within the first half of the node's chain (`2 * k <= own.len()`) never
/// replaces it, however long it is.
pub proof fn lemma_short_overlap_not_better(own: Seq<BlockView>, new: Seq<BlockView>, k: int)
    requires
        0 <= k < own.len(),
        k < new.len(),
        2 * k <= own.len(),
        own[k] != new[k],
    ensures
        !better_chain(own, new),
{
    lemma_common_prefix_bounded(own, new, k);
}

} // verus!
