//! Blocks and the chain of blocks.
use vstd::prelude::*;

use std::collections::HashMap;

use crate::crypto::{
    is_digest_hex, now, random_u128, sha3_256_hex, sha3_hex_digest, PublicKey, Timestamp,
};
use crate::events::{
    debug_text, dec_digits, event_hash, events_contain, events_copy, events_view, push_all,
    push_decimal, push_str_debug, signature_accepted, Event, EventView,
};
use vstd::utf8::encode_utf8;

verus! {

broadcast use vstd::std_specs::hash::group_hash_axioms;

// ---------------------------------------------------------------------
// Optional strings.

/// Abstract value of an optional string.
pub open spec fn opt_str_view(o: Option<String>) -> Option<Seq<char>> {
    match o {
        Some(s) => Some(s@),
        None => None,
    }
}

/// Whether two optional strings are equal.
pub fn opt_str_eq(a: &Option<String>, b: &Option<String>) -> (r: bool)
    ensures
        r == (opt_str_view(*a) == opt_str_view(*b)),
{
    match (a, b) {
        (Some(x), Some(y)) => *x == *y,
        (None, None) => true,
        _ => false,
    }
}

/// A copy of an optional string.
pub fn opt_str_copy(a: &Option<String>) -> (r: Option<String>)
    ensures
        opt_str_view(r) == opt_str_view(*a),
{
    match a {
        Some(x) => Some(x.clone()),
        None => None,
    }
}

// ---------------------------------------------------------------------
// Blocks.

/// Abstract value of a [`Block`].
pub struct BlockView {
    pub events: Seq<EventView>,
    pub prev_hash: Option<Seq<char>>,
    pub hash: Option<Seq<char>>,
    pub nonce: u128,
    pub created_at: Timestamp,
}

/// A group of events, linked to the block before it by that block's hash.
#[derive(Debug)]
pub struct Block {
    /// Events of the block.
    pub events: Vec<Event>,
    /// Hash of the preceding block.
    pub prev_hash: Option<String>,
    /// Hash of this block, once computed.
    pub hash: Option<String>,
    /// Random value of the block.
    pub nonce: u128,
    /// When the block was made.
    pub created_at: Timestamp,
}

impl View for Block {
    type V = BlockView;

    open spec fn view(&self) -> BlockView {
        BlockView {
            events: events_view(self.events@),
            prev_hash: opt_str_view(self.prev_hash),
            hash: opt_str_view(self.hash),
            nonce: self.nonce,
            created_at: self.created_at,
        }
    }
}

/// Abstract value of a list of blocks.
pub open spec fn blocks_view(v: Seq<Block>) -> Seq<BlockView> {
    v.map_values(|b: Block| b@)
}

/// The hashes of `events`, one after the other.
pub open spec fn concat_hashes(events: Seq<EventView>) -> Seq<u8>
    decreases events.len(),
{
    if events.len() == 0 {
        seq![]
    } else {
        concat_hashes(events.drop_last()) + event_hash(events.last())
    }
}

/// The predecessor's hash and the nonce as `{:?}` writes the pair of them:
/// `(None, 7)` or `(Some("ab12"), 7)`.
pub open spec fn link_debug(prev_hash: Option<Seq<char>>, nonce: u128) -> Seq<u8> {
    match prev_hash {
        Some(h) => encode_utf8("(Some("@) + encode_utf8(debug_text(h)) + encode_utf8("), "@)
            + dec_digits(nonce as nat) + encode_utf8(")"@),
        None => encode_utf8("(None, "@) + dec_digits(nonce as nat) + encode_utf8(")"@),
    }
}

/// The bytes that a block's hash is computed over: the hashes of its
/// events, then its predecessor's hash and its nonce.
pub open spec fn block_digest_input(b: BlockView) -> Seq<u8> {
    concat_hashes(b.events) + link_debug(b.prev_hash, b.nonce)
}

/// Hash of a block, in hexadecimal.
pub open spec fn block_hash(b: BlockView) -> Seq<char> {
    sha3_256_hex(block_digest_input(b))
}

/// The block with its hash field set to its hash.
pub open spec fn rehash(b: BlockView) -> BlockView {
    BlockView { hash: Some(block_hash(b)), ..b }
}

/// Whether the hash stored in the block is its hash.
pub open spec fn hash_consistent(b: BlockView) -> bool {
    b.hash == Some(block_hash(b))
}

/// Whether an event passes the check of its author's key: where `users`
/// knows the author, under that key; else only an unsigned event does.
pub open spec fn event_accepted(e: EventView, users: Map<u128, PublicKey>) -> bool {
    if users.contains_key(e.made_by) {
        signature_accepted(e, users[e.made_by]@)
    } else {
        e.signature is None
    }
}

/// Whether every event passes the check of its author's key.
pub open spec fn all_accepted(events: Seq<EventView>, users: Map<u128, PublicKey>) -> bool {
    forall|i: int| 0 <= i < events.len() ==> event_accepted(#[trigger] events[i], users)
}

impl Block {
    /// A new empty block after the block whose hash is `prev_hash`.
    pub fn new(prev_hash: Option<String>) -> (r: Block)
        ensures
            r.events@.len() == 0,
            r.prev_hash == prev_hash,
            r.hash is None,
    {
        Block { events: Vec::new(), prev_hash, hash: None, nonce: random_u128(), created_at: now() }
    }

    /// Appends several events, in their order, and stores the new hash.
    pub fn add_events(&mut self, events: Vec<Event>)
        ensures
            final(self)@ == rehash(
                BlockView { events: old(self)@.events + events_view(events@), ..old(self)@ },
            ),
    {
        let mut events = events;
        let ghost added = events_view(events@);
        self.events.append(&mut events);
        assert(events_view(self.events@) =~= old(self)@.events + added);
        self.hash = Some(self.calculate_hash());
    }

    /// Replaces the nonce and stores the new hash.
    pub fn set_nonce(&mut self, nonce: u128)
        ensures
            final(self)@ == rehash(BlockView { nonce, ..old(self)@ }),
    {
        self.nonce = nonce;
        self.update_hash();
    }

    /// Hash of the block.
    pub fn calculate_hash(&self) -> (r: String)
        ensures
            r@ == block_hash(self@),
            is_digest_hex(r@),
    {
        let mut input: Vec<u8> = Vec::new();
        let mut i: usize = 0;
        while i < self.events.len()
            invariant
                0 <= i <= self.events@.len(),
                input@ == concat_hashes(events_view(self.events@).take(i as int)),
            decreases self.events@.len() - i,
        {
            let h = self.events[i].calculate_hash();
            push_all(&mut input, h.as_slice());
            assert(events_view(self.events@).take(i + 1).drop_last() =~= events_view(
                self.events@,
            ).take(i as int));
            i = i + 1;
        }
        assert(events_view(self.events@).take(i as int) =~= events_view(self.events@));
        let ghost hashes = input@;
        match &self.prev_hash {
            Some(p) => {
                push_all(&mut input, "(Some(".as_bytes());
                push_str_debug(&mut input, p.as_str());
                push_all(&mut input, "), ".as_bytes());
            },
            None => {
                push_all(&mut input, "(None, ".as_bytes());
            },
        }
        push_decimal(&mut input, self.nonce);
        push_all(&mut input, ")".as_bytes());
        assert(input@ =~= hashes + link_debug(self@.prev_hash, self.nonce));
        assert(input@ =~= block_digest_input(self@));
        sha3_hex_digest(input.as_slice())
    }

    /// Stores the block's hash in it.
    pub fn update_hash(&mut self)
        ensures
            final(self)@ == rehash(old(self)@),
    {
        self.hash = Some(self.calculate_hash());
    }

    /// Whether the stored hash is the block's hash.
    pub fn verify_hash(&self) -> (r: bool)
        ensures
            r == hash_consistent(self@),
    {
        match &self.hash {
            Some(h) => {
                let c = self.calculate_hash();
                *h == c
            },
            None => false,
        }
    }

    /// Appends an event and stores the new hash.
    pub fn add_event(&mut self, event: Event)
        ensures
            final(self)@ == rehash(BlockView { events: old(self)@.events.push(event@), ..old(self)@ }),
    {
        self.events.push(event);
        assert(events_view(self.events@) =~= old(self)@.events.push(event@));
        self.update_hash();
    }

    /// Number of events in the block.
    pub fn get_event_count(&self) -> (r: usize)
        ensures
            r == self.events@.len(),
    {
        self.events.len()
    }

    /// Whether every signed event of the block verifies under the key that
    /// `users` holds for its author.
    pub fn execute(&self, users: &HashMap<u128, PublicKey>) -> (r: bool)
        ensures
            r == all_accepted(self@.events, users@),
    {
        let mut i: usize = 0;
        while i < self.events.len()
            invariant
                0 <= i <= self.events@.len(),
                forall|j: int| 0 <= j < i ==> event_accepted(#[trigger] self@.events[j], users@),
            decreases self.events@.len() - i,
        {
            let event = &self.events[i];
            assert(self@.events[i as int] == event@);
            let ok = if users.contains_key(&event.made_by) {
                event.execute(users.get(&event.made_by))
            } else {
                event.execute(None)
            };
            if !ok {
                return false;
            }
            i = i + 1;
        }
        true
    }

    /// Whether two blocks are the same in every field.
    pub fn equals(&self, other: &Block) -> (r: bool)
        ensures
            r == (self@ == other@),
    {
        if self.events.len() != other.events.len() {
            assert(self@.events.len() != other@.events.len());
            return false;
        }
        let mut i: usize = 0;
        while i < self.events.len()
            invariant
                self.events@.len() == other.events@.len(),
                0 <= i <= self.events@.len(),
                forall|j: int| 0 <= j < i ==> self.events@[j]@ == other.events@[j]@,
            decreases self.events@.len() - i,
        {
            if !self.events[i].equals(&other.events[i]) {
                assert(self@.events[i as int] != other@.events[i as int]);
                return false;
            }
            i = i + 1;
        }
        assert(self@.events =~= other@.events);
        opt_str_eq(&self.prev_hash, &other.prev_hash) && opt_str_eq(&self.hash, &other.hash)
            && self.nonce == other.nonce && self.created_at == other.created_at
    }

    /// A copy of the block.
    pub fn duplicate(&self) -> (r: Block)
        ensures
            r@ == self@,
    {
        Block {
            events: events_copy(&self.events),
            prev_hash: opt_str_copy(&self.prev_hash),
            hash: opt_str_copy(&self.hash),
            nonce: self.nonce,
            created_at: self.created_at,
        }
    }
}

/// Storing a block's hash makes the block's hash check succeed.
pub proof fn lemma_rehash_consistent(b: BlockView)
    ensures
        hash_consistent(rehash(b)),
{
}

// ---------------------------------------------------------------------
// Chains.

/// Why a block cannot be appended, or why a chain is not valid.
#[derive(Clone, Copy, Debug, PartialEq, Eq, Structural)]
pub enum ChainError {
    /// The hash stored in the block is not its hash.
    OwnHash,
    /// The block does not name the last block of the chain as predecessor.
    PrevHash,
    /// The first block of a chain names a predecessor.
    StartingPrevHash,
    /// The block at this position does not name the block before it.
    PrevHashAt(usize),
}

/// Hash of the last block, `None` for an empty chain.
pub open spec fn last_hash_of(chain: Seq<BlockView>) -> Option<Seq<char>> {
    if chain.len() == 0 {
        None
    } else {
        chain.last().hash
    }
}

/// What appending `b` to `chain` gives: an error where the block's own hash
/// or its link to the chain is wrong, else whether its events pass the
/// check of their authors' keys (and the block is appended).
pub open spec fn append_outcome(
    chain: Seq<BlockView>,
    users: Map<u128, PublicKey>,
    b: BlockView,
) -> Result<bool, ChainError> {
    if !hash_consistent(b) {
        Err(ChainError::OwnHash)
    } else if b.prev_hash != last_hash_of(chain) {
        Err(ChainError::PrevHash)
    } else {
        Ok(all_accepted(b.events, users))
    }
}

/// Whether the block at position `i` has a consistent hash and names its
/// predecessor: none for the first block, the block before it otherwise.
pub open spec fn block_ok_at(chain: Seq<BlockView>, i: int) -> bool {
    &&& hash_consistent(chain[i])
    &&& if i == 0 {
        chain[i].prev_hash is None
    } else {
        chain[i].prev_hash == chain[i - 1].hash
    }
}

/// Whether every block of the chain is in order.
pub open spec fn chain_valid(chain: Seq<BlockView>) -> bool {
    forall|i: int| 0 <= i < chain.len() ==> #[trigger] block_ok_at(chain, i)
}

/// The error reported for the block at position `i` where it is not in
/// order.
pub open spec fn error_at(chain: Seq<BlockView>, i: int) -> ChainError {
    if !hash_consistent(chain[i]) {
        ChainError::OwnHash
    } else if i == 0 {
        ChainError::StartingPrevHash
    } else {
        ChainError::PrevHashAt(i as usize)
    }
}

/// Whether some block of the chain holds the event.
pub open spec fn chain_has_event(chain: Seq<BlockView>, e: EventView) -> bool {
    exists|i: int| 0 <= i < chain.len() && (#[trigger] chain[i]).events.contains(e)
}

/// Number of leading blocks that two chains share.
pub open spec fn common_prefix_len(a: Seq<BlockView>, b: Seq<BlockView>) -> nat
    decreases a.len(),
{
    if a.len() == 0 || b.len() == 0 || a[0] != b[0] {
        0
    } else {
        1 + common_prefix_len(a.drop_first(), b.drop_first())
    }
}

/// Local copy of the blockchain.
#[derive(Debug)]
pub struct BlockChain {
    /// The blocks, oldest first.
    pub chain: Vec<Block>,
    /// Known participants and their public keys.
    pub users: HashMap<u128, PublicKey>,
    /// When the chain was created.
    pub created_at: Timestamp,
    pending_events: Vec<Event>,
    blc_location: Option<String>,
}

impl BlockChain {
    /// The blocks of the chain.
    pub closed spec fn blocks(&self) -> Seq<BlockView> {
        blocks_view(self.chain@)
    }

    /// Known participants and their public keys.
    pub closed spec fn user_keys(&self) -> Map<u128, PublicKey> {
        self.users@
    }

    /// When the chain was created.
    pub closed spec fn created(&self) -> Timestamp {
        self.created_at
    }

    /// Where the chain is saved.
    pub closed spec fn location(&self) -> Option<Seq<char>> {
        opt_str_view(self.blc_location)
    }

    /// Events that wait for a block.
    pub closed spec fn pending(&self) -> Seq<EventView> {
        events_view(self.pending_events@)
    }

    /// A new empty chain, to be saved at `blockchain_path`, by default at
    /// `./blockchain.bin`.
    pub fn new(blockchain_path: Option<String>) -> (r: BlockChain)
        ensures
            r.blocks().len() == 0,
            r.user_keys() == Map::<u128, PublicKey>::empty(),
            r.pending().len() == 0,
            r.location() == Some(
                match blockchain_path {
                    Some(p) => p@,
                    None => "./blockchain.bin"@,
                },
            ),
    {
        let path: String = match blockchain_path {
            Some(p) => p,
            None => "./blockchain.bin".to_owned(),
        };
        let r = BlockChain {
            chain: Vec::new(),
            users: HashMap::new(),
            created_at: now(),
            pending_events: Vec::new(),
            blc_location: Some(path),
        };
        assert(r.blocks() =~= Seq::<BlockView>::empty());
        assert(r.pending() =~= Seq::<EventView>::empty());
        r
    }

    /// A chain from its parts, as a saved copy holds them.
    pub fn from_parts(
        chain: Vec<Block>,
        users: HashMap<u128, PublicKey>,
        created_at: Timestamp,
        pending_events: Vec<Event>,
        location: Option<String>,
    ) -> (r: BlockChain)
        ensures
            r.blocks() == blocks_view(chain@),
            r.user_keys() == users@,
            r.created() == created_at,
            r.pending() == events_view(pending_events@),
            r.location() == opt_str_view(location),
    {
        BlockChain { chain, users, created_at, pending_events, blc_location: location }
    }

    /// Events that wait for a block.
    pub fn pending_events(&self) -> (r: &Vec<Event>)
        ensures
            events_view(r@) == self.pending(),
    {
        &self.pending_events
    }

    /// Hash of the most recent block.
    pub fn last_hash(&self) -> (r: Option<String>)
        ensures
            opt_str_view(r) == last_hash_of(self.blocks()),
    {
        if self.chain.len() == 0 {
            return None;
        }
        opt_str_copy(&self.chain[self.chain.len() - 1].hash)
    }

    /// Appends `block` where its hash is its own and it names the last
    /// block as predecessor.  A block whose events do not all pass the check
    /// of their authors' keys is left out, and `Ok(false)` says so.
    pub fn append(&mut self, block: Block) -> (r: Result<bool, ChainError>)
        ensures
            r == append_outcome(old(self).blocks(), old(self).user_keys(), block@),
            final(self).blocks() == if r == Ok::<bool, ChainError>(true) {
                old(self).blocks().push(block@)
            } else {
                old(self).blocks()
            },
            final(self).user_keys() == old(self).user_keys(),
            final(self).created() == old(self).created(),
            final(self).location() == old(self).location(),
            final(self).pending() == old(self).pending(),
    {
        if !block.verify_hash() {
            return Err(ChainError::OwnHash);
        }
        let last = self.last_hash();
        if !opt_str_eq(&block.prev_hash, &last) {
            return Err(ChainError::PrevHash);
        }
        if block.execute(&self.users) {
            let ghost b = block@;
            self.chain.push(block);
            assert(self.blocks() =~= old(self).blocks().push(b));
            Ok(true)
        } else {
            Ok(false)
        }
    }

    /// Checks that every block has a consistent hash and names its
    /// predecessor; reports the first block that does not.
    pub fn validate_chain(&self) -> (r: Result<(), ChainError>)
        ensures
            r is Ok <==> chain_valid(self.blocks()),
            r matches Err(err) ==> exists|i: int|
                0 <= i < self.blocks().len() && (forall|j: int|
                    0 <= j < i ==> block_ok_at(self.blocks(), j)) && !block_ok_at(self.blocks(), i)
                    && err == error_at(self.blocks(), i),
    {
        let ghost c = self.blocks();
        let mut i: usize = 0;
        while i < self.chain.len()
            invariant
                c == self.blocks(),
                0 <= i <= c.len(),
                forall|j: int| 0 <= j < i ==> #[trigger] block_ok_at(c, j),
            decreases c.len() - i,
        {
            let block = &self.chain[i];
            assert(c[i as int] == block@);
            if !block.verify_hash() {
                assert(!block_ok_at(c, i as int));
                return Err(ChainError::OwnHash);
            }
            if i == 0 {
                if block.prev_hash.is_some() {
                    assert(!block_ok_at(c, i as int));
                    return Err(ChainError::StartingPrevHash);
                }
            } else {
                assert(c[i - 1] == self.chain@[i - 1]@);
                if !opt_str_eq(&block.prev_hash, &self.chain[i - 1].hash) {
                    assert(!block_ok_at(c, i as int));
                    return Err(ChainError::PrevHashAt(i));
                }
            }
            assert(block_ok_at(c, i as int));
            i = i + 1;
        }
        Ok(())
    }

    /// Whether some block holds an event equal to `event`.
    pub fn contains(&self, event: &Event) -> (r: bool)
        ensures
            r == chain_has_event(self.blocks(), event@),
    {
        let ghost c = self.blocks();
        let mut i: usize = 0;
        while i < self.chain.len()
            invariant
                c == self.blocks(),
                0 <= i <= c.len(),
                forall|j: int| 0 <= j < i ==> !(#[trigger] c[j]).events.contains(event@),
            decreases c.len() - i,
        {
            assert(c[i as int] == self.chain@[i as int]@);
            if events_contain(&self.chain[i].events, event) {
                assert(c[i as int].events.contains(event@));
                return true;
            }
            i = i + 1;
        }
        false
    }

    /// Records a participant and its public key.
    pub fn new_user(&mut self, id: u128, pub_key: PublicKey)
        ensures
            final(self).user_keys() == old(self).user_keys().insert(id, pub_key),
            final(self).blocks() == old(self).blocks(),
            final(self).created() == old(self).created(),
            final(self).location() == old(self).location(),
            final(self).pending() == old(self).pending(),
    {
        self.users.insert(id, pub_key);
    }

    /// Number of blocks.
    pub fn len(&self) -> (r: usize)
        ensures
            r == self.blocks().len(),
    {
        self.chain.len()
    }

    /// Number of leading blocks that this chain shares with `chain`.
    pub fn chain_overlap_len(&self, chain: &BlockChain) -> (r: usize)
        ensures
            r == common_prefix_len(self.blocks(), chain.blocks()),
    {
        let ghost a = self.blocks();
        let ghost b = chain.blocks();
        let mut i: usize = 0;
        assert(a.subrange(0, a.len() as int) =~= a);
        assert(b.subrange(0, b.len() as int) =~= b);
        while i < self.chain.len() && i < chain.chain.len() && self.chain[i].equals(&chain.chain[i])
            invariant
                a == self.blocks(),
                b == chain.blocks(),
                0 <= i <= a.len(),
                i <= b.len(),
                common_prefix_len(a, b) == i + common_prefix_len(
                    a.subrange(i as int, a.len() as int),
                    b.subrange(i as int, b.len() as int),
                ),
            decreases a.len() - i,
        {
            assert(a.subrange(i as int, a.len() as int).drop_first() =~= a.subrange(
                i + 1,
                a.len() as int,
            ));
            assert(b.subrange(i as int, b.len() as int).drop_first() =~= b.subrange(
                i + 1,
                b.len() as int,
            ));
            assert(a.subrange(i as int, a.len() as int)[0] == a[i as int]);
            assert(b.subrange(i as int, b.len() as int)[0] == b[i as int]);
            i = i + 1;
        }
        if i < self.chain.len() && i < chain.chain.len() {
            assert(a.subrange(i as int, a.len() as int)[0] == a[i as int]);
            assert(b.subrange(i as int, b.len() as int)[0] == b[i as int]);
        }
        i
    }

    /// Whether some block of the chain is equal to `block`.
    pub fn in_chain(&self, block: &Block) -> (r: bool)
        ensures
            r == self.blocks().contains(block@),
    {
        let ghost c = self.blocks();
        let mut i: usize = 0;
        while i < self.chain.len()
            invariant
                c == self.blocks(),
                0 <= i <= c.len(),
                forall|j: int| 0 <= j < i ==> c[j] != block@,
            decreases c.len() - i,
        {
            assert(c[i as int] == self.chain@[i as int]@);
            if self.chain[i].equals(block) {
                return true;
            }
            i = i + 1;
        }
        false
    }

    /// Sets where the chain is saved.
    pub fn set_save_location(&mut self, location: Option<String>)
        ensures
            final(self).location() == opt_str_view(location),
            final(self).blocks() == old(self).blocks(),
            final(self).user_keys() == old(self).user_keys(),
            final(self).created() == old(self).created(),
            final(self).pending() == old(self).pending(),
    {
        self.blc_location = location;
    }

    /// Where the chain is saved.
    pub fn save_location(&self) -> (r: Option<String>)
        ensures
            opt_str_view(r) == self.location(),
    {
        opt_str_copy(&self.blc_location)
    }

    /// A copy of the chain.
    pub fn duplicate(&self) -> (r: BlockChain)
        ensures
            r.blocks() == self.blocks(),
            r.user_keys() == self.user_keys(),
            r.created() == self.created(),
            r.pending() == self.pending(),
            r.location() == self.location(),
    {
        let mut chain: Vec<Block> = Vec::new();
        let mut i: usize = 0;
        while i < self.chain.len()
            invariant
                0 <= i <= self.chain@.len(),
                chain@.len() == i,
                forall|j: int| 0 <= j < i ==> chain@[j]@ == self.chain@[j]@,
            decreases self.chain@.len() - i,
        {
            chain.push(self.chain[i].duplicate());
            i = i + 1;
        }
        assert(blocks_view(chain@) =~= self.blocks());
        BlockChain {
            chain,
            users: self.users.clone(),
            created_at: self.created_at,
            pending_events: events_copy(&self.pending_events),
            blc_location: opt_str_copy(&self.blc_location),
        }
    }
}

// ---------------------------------------------------------------------
// Laws.

/// An empty chain is valid.
pub proof fn lemma_empty_chain_valid()
    ensures
        chain_valid(Seq::<BlockView>::empty()),
{
}

/// Appending keeps a chain valid: a block that `append` accepts has a
/// consistent hash and names the last block, so the longer chain passes
/// `validate_chain` whenever the shorter one did, and its last hash is the
/// new block's.
pub proof fn lemma_append_keeps_chain_valid(
    chain: Seq<BlockView>,
    users: Map<u128, PublicKey>,
    b: BlockView,
)
    requires
        chain_valid(chain),
        append_outcome(chain, users, b) == Ok::<bool, ChainError>(true),
    ensures
        chain_valid(chain.push(b)),
        last_hash_of(chain.push(b)) == b.hash,
{
    let c = chain.push(b);
    assert forall|i: int| 0 <= i < c.len() implies #[trigger] block_ok_at(c, i) by {
        if i < chain.len() {
            assert(block_ok_at(chain, i));
            if i > 0 {
                assert(c[i - 1] == chain[i - 1]);
            }
        } else if i > 0 {
            assert(c[i - 1] == chain.last());
        }
    }
}

/// An event signed by a participant that the chain does not know is
/// invalid: a block that holds one is never appended.
pub proof fn lemma_unknown_signer_refused(
    chain: Seq<BlockView>,
    users: Map<u128, PublicKey>,
    b: BlockView,
    i: int,
)
    requires
        0 <= i < b.events.len(),
        b.events[i].signature is Some,
        !users.contains_key(b.events[i].made_by),
    ensures
        append_outcome(chain, users, b) != Ok::<bool, ChainError>(true),
{
    assert(!event_accepted(b.events[i], users));
}

/// A chain shares all its blocks with itself.
pub proof fn lemma_overlap_self(a: Seq<BlockView>)
    ensures
        common_prefix_len(a, a) == a.len(),
    decreases a.len(),
{
    if a.len() > 0 {
        lemma_overlap_self(a.drop_first());
    }
}

/// The shared prefix does not depend on the order of the two chains, and is
/// no longer than either.
pub proof fn lemma_overlap_symmetric(a: Seq<BlockView>, b: Seq<BlockView>)
    ensures
        common_prefix_len(a, b) == common_prefix_len(b, a),
        common_prefix_len(a, b) <= a.len(),
        common_prefix_len(a, b) <= b.len(),
    decreases a.len(),
{
    if a.len() > 0 && b.len() > 0 && a[0] == b[0] {
        lemma_overlap_symmetric(a.drop_first(), b.drop_first());
    }
}

/// A block that `append` accepts is then in the chain, with all its events.
pub proof fn lemma_appended_block_found(chain: Seq<BlockView>, b: BlockView, e: EventView)
    requires
        b.events.contains(e),
    ensures
        chain.push(b).contains(b),
        chain_has_event(chain.push(b), e),
{
    assert(chain.push(b)[chain.len() as int] == b);
}

/// A chain passes validation exactly when every block, at every position,
/// stores its own hash, and names no predecessor if it is the first block
/// and the stored hash of the block before it otherwise.
pub proof fn lemma_chain_valid_iff(c: Seq<BlockView>)
    ensures
        chain_valid(c) <==> forall|i: int|
            0 <= i < c.len() ==> {
                &&& (#[trigger] c[i]).hash == Some(block_hash(c[i]))
                &&& if i == 0 {
                    c[i].prev_hash is None
                } else {
                    c[i].prev_hash == c[i - 1].hash
                }
            },
{
    if chain_valid(c) {
        assert forall|i: int| 0 <= i < c.len() implies {
            &&& (#[trigger] c[i]).hash == Some(block_hash(c[i]))
            &&& if i == 0 {
                c[i].prev_hash is None
            } else {
                c[i].prev_hash == c[i - 1].hash
            }
        } by {
            assert(block_ok_at(c, i));
        }
    }
}

/// A block whose stored hash is not its own hash is reported as such,
/// wherever it stands in the chain.
pub proof fn lemma_wrong_own_hash_reported(c: Seq<BlockView>, i: int)
    requires
        0 <= i < c.len(),
        c[i].hash != Some(block_hash(c[i])),
    ensures
        !chain_valid(c),
        error_at(c, i) == ChainError::OwnHash,
{
    lemma_chain_valid_iff(c);
}

/// The input of a block's hash starts with the hashes of all its events,
/// one after the other in their order: where each event hash is 64 bytes
/// long (the hexadecimal SHA3-256 digest), they take `64 * n` bytes and
/// bytes `64 * i` to `64 * i + 64` are the hash of event `i`.
pub proof fn lemma_block_input_holds_every_event(es: Seq<EventView>, i: int)
    requires
        forall|j: int| 0 <= j < es.len() ==> (#[trigger] event_hash(es[j])).len() == 64,
        0 <= i < es.len(),
    ensures
        concat_hashes(es).len() == 64 * es.len(),
        concat_hashes(es).subrange(64 * i, 64 * i + 64) == event_hash(es[i]),
    decreases es.len(),
{
    lemma_concat_hashes_len(es);
    let front = es.drop_last();
    lemma_concat_hashes_len(front);
    assert(event_hash(es.last()).len() == 64) by {
        assert(es.last() == es[es.len() - 1]);
    }
    assert(concat_hashes(es) == concat_hashes(front) + event_hash(es.last()));
    if i < es.len() - 1 {
        assert forall|j: int| 0 <= j < front.len() implies (#[trigger] event_hash(front[j])).len()
            == 64 by {
            assert(front[j] == es[j]);
        }
        lemma_block_input_holds_every_event(front, i);
        assert(64 * i + 64 <= 64 * front.len()) by (nonlinear_arith)
            requires
                i < front.len(),
        ;
        assert(concat_hashes(es).subrange(64 * i, 64 * i + 64) =~= concat_hashes(front).subrange(
            64 * i,
            64 * i + 64,
        ));
        assert(front[i] == es[i]);
    } else {
        assert(concat_hashes(es).subrange(64 * i, 64 * i + 64) =~= event_hash(es.last()));
    }
}

/// Length of the hashes of a list of events whose hashes are 64 bytes
/// each.
proof fn lemma_concat_hashes_len(es: Seq<EventView>)
    requires
        forall|j: int| 0 <= j < es.len() ==> (#[trigger] event_hash(es[j])).len() == 64,
    ensures
        concat_hashes(es).len() == 64 * es.len(),
    decreases es.len(),
{
    if es.len() > 0 {
        let front = es.drop_last();
        assert forall|j: int| 0 <= j < front.len() implies (#[trigger] event_hash(front[j])).len()
            == 64 by {
            assert(front[j] == es[j]);
        }
        lemma_concat_hashes_len(front);
        assert(event_hash(es.last()).len() == 64) by {
            assert(es.last() == es[es.len() - 1]);
        }
    }
}

/// Two blocks with the same predecessor, nonce and number of events, whose
/// event hashes are 64 bytes long, and with different hashes for some
/// event, have different hash inputs: a block's hash covers each of its
/// events.
pub proof fn lemma_block_input_differs(b1: BlockView, b2: BlockView, i: int)
    requires
        b1.prev_hash == b2.prev_hash,
        b1.nonce == b2.nonce,
        b1.events.len() == b2.events.len(),
        forall|j: int| 0 <= j < b1.events.len() ==> (#[trigger] event_hash(b1.events[j])).len() == 64,
        forall|j: int| 0 <= j < b2.events.len() ==> (#[trigger] event_hash(b2.events[j])).len() == 64,
        0 <= i < b1.events.len(),
        event_hash(b1.events[i]) != event_hash(b2.events[i]),
    ensures
        block_digest_input(b1) != block_digest_input(b2),
{
    lemma_block_input_holds_every_event(b1.events, i);
    lemma_block_input_holds_every_event(b2.events, i);
    let n: int = 64 * (b1.events.len() as int);
    if block_digest_input(b1) == block_digest_input(b2) {
        assert(block_digest_input(b1).subrange(0, n) =~= concat_hashes(b1.events));
        assert(block_digest_input(b2).subrange(0, n) =~= concat_hashes(b2.events));
    }
}

/// Whether two optional hashes are written differently by `{:?}`.
pub open spec fn links_differ(p1: Option<Seq<char>>, p2: Option<Seq<char>>) -> bool {
    match (p1, p2) {
        (Some(h1), Some(h2)) => debug_text(h1) != debug_text(h2),
        (None, None) => false,
        _ => true,
    }
}

/// Second byte of the text of a link: `N` for `(None, ..`, `S` for
/// `(Some(..`.
proof fn lemma_link_second_byte(p: Option<Seq<char>>, nonce: u128)
    ensures
        link_debug(p, nonce).len() > 1,
        link_debug(p, nonce)[1] == if p is None {
            78u8
        } else {
            83u8
        },
{
    reveal_strlit("(None, ");
    reveal_strlit("(Some(");
    assert(vstd::utf8::is_ascii_chars("(None, "@));
    assert(vstd::utf8::is_ascii_chars("(Some("@));
    vstd::utf8::is_ascii_chars_encode_utf8("(None, "@);
    vstd::utf8::is_ascii_chars_encode_utf8("(Some("@);
    let a = if p is None {
        encode_utf8("(None, "@)
    } else {
        encode_utf8("(Some("@)
    };
    match p {
        Some(h) => {
            assert(link_debug(p, nonce) =~= a + (encode_utf8(debug_text(h)) + encode_utf8("), "@)
                + dec_digits(nonce as nat) + encode_utf8(")"@)));
        },
        None => {
            assert(link_debug(p, nonce) =~= a + (dec_digits(nonce as nat) + encode_utf8(")"@)));
        },
    }
}

/// A block's hash covers its nonce: blocks that differ only in it have
/// different hash inputs.
pub proof fn lemma_block_hash_covers_nonce(b1: BlockView, b2: BlockView)
    requires
        b1.events == b2.events,
        b1.prev_hash == b2.prev_hash,
        b1.nonce != b2.nonce,
    ensures
        block_digest_input(b1) != block_digest_input(b2),
{
    if block_digest_input(b1) == block_digest_input(b2) {
        let h = concat_hashes(b1.events);
        crate::events::lemma_cancel_left(h, link_debug(b1.prev_hash, b1.nonce), link_debug(b2.prev_hash, b2.nonce));
        let d1 = dec_digits(b1.nonce as nat);
        let d2 = dec_digits(b2.nonce as nat);
        let t = encode_utf8(")"@);
        let a = match b1.prev_hash {
            Some(p) => encode_utf8("(Some("@) + encode_utf8(debug_text(p)) + encode_utf8("), "@),
            None => encode_utf8("(None, "@),
        };
        assert(link_debug(b1.prev_hash, b1.nonce) =~= a + d1 + t);
        assert(link_debug(b2.prev_hash, b2.nonce) =~= a + d2 + t);
        crate::events::lemma_cancel_right(a + d1, a + d2, t);
        crate::events::lemma_cancel_left(a, d1, d2);
        crate::events::lemma_dec_digits_injective(b1.nonce as nat, b2.nonce as nat);
    }
}

/// A block's hash covers the hash of the block before it: blocks with the
/// same events and nonce whose predecessors' hashes are written
/// differently have different hash inputs.
pub proof fn lemma_block_hash_covers_prev_hash(b1: BlockView, b2: BlockView)
    requires
        b1.events == b2.events,
        b1.nonce == b2.nonce,
        links_differ(b1.prev_hash, b2.prev_hash),
    ensures
        block_digest_input(b1) != block_digest_input(b2),
{
    if block_digest_input(b1) == block_digest_input(b2) {
        let h = concat_hashes(b1.events);
        let l1 = link_debug(b1.prev_hash, b1.nonce);
        let l2 = link_debug(b2.prev_hash, b2.nonce);
        crate::events::lemma_cancel_left(h, l1, l2);
        match (b1.prev_hash, b2.prev_hash) {
            (Some(p1), Some(p2)) => {
                let a = encode_utf8("(Some("@);
                let e1 = encode_utf8(debug_text(p1));
                let e2 = encode_utf8(debug_text(p2));
                let c = encode_utf8("), "@);
                let d = dec_digits(b1.nonce as nat);
                let t = encode_utf8(")"@);
                crate::events::lemma_cancel_right(a + e1 + c + d, a + e2 + c + d, t);
                crate::events::lemma_cancel_right(a + e1 + c, a + e2 + c, d);
                crate::events::lemma_cancel_right(a + e1, a + e2, c);
                crate::events::lemma_cancel_left(a, e1, e2);
                vstd::utf8::encode_utf8_decode_utf8(debug_text(p1));
                vstd::utf8::encode_utf8_decode_utf8(debug_text(p2));
            },
            _ => {
                lemma_link_second_byte(b1.prev_hash, b1.nonce);
                lemma_link_second_byte(b2.prev_hash, b2.nonce);
            },
        }
    }
}

} // verus!
