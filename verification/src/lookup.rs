//! The lookup service: a table of the participants' addresses.
//!
//! Participants register their identifier, address and role, and ask for
//! the address of one participant or for up to four addresses of others.
use vstd::prelude::*;

use std::collections::HashMap;

use crate::accounts::Role;
use crate::crypto::choose_indices;
use crate::messages::{MessageData, NetworkMessage, ProcessMessage};
use vstd::std_specs::iter::IteratorSpec;

verus! {

broadcast use vstd::std_specs::hash::group_hash_axioms;

/// Most addresses that one request is answered with.
pub const MAX_PEERS: usize = 4;

/// The table: address and role of each registered identifier.
pub type AddressTable = HashMap<u128, (String, Role)>;

/// The address that `id` registered, if it did.
pub open spec fn own_address(table: Map<u128, (String, Role)>, id: u128) -> Option<Seq<char>> {
    if table.contains_key(id) {
        Some(table[id].0@)
    } else {
        None
    }
}

/// Whether an entry answers a request from a node registered at `own` for
/// nodes of role `filter`: its address is not the requester's and it has
/// the role asked for, if any.
pub open spec fn entry_matches(own: Option<Seq<char>>, filter: Option<Role>, entry: (String, Role)) -> bool {
    &&& own != Some(entry.0@)
    &&& match filter {
        Some(role) => entry.1 == role,
        None => true,
    }
}

/// Identifiers whose entries answer a request by `id` for nodes of role
/// `filter`.
pub open spec fn matching_ids(table: Map<u128, (String, Role)>, id: u128, filter: Option<Role>) -> Set<u128> {
    Set::new(|k: u128| table.contains_key(k) && entry_matches(own_address(table, id), filter, table[k]))
}

/// Whether `peers` lists entries of the table that answer the request, with
/// their addresses, each identifier once.
pub open spec fn lists_matching(
    table: Map<u128, (String, Role)>,
    id: u128,
    filter: Option<Role>,
    peers: Seq<(u128, String)>,
) -> bool {
    &&& forall|j: int|
        0 <= j < peers.len() ==> {
            &&& #[trigger] table.contains_key(peers[j].0)
            &&& entry_matches(own_address(table, id), filter, table[peers[j].0])
            &&& peers[j].1@ == table[peers[j].0].0@
        }
    &&& forall|j1: int, j2: int|
        0 <= j1 < j2 < peers.len() ==> #[trigger] peers[j1].0 != #[trigger] peers[j2].0
}

/// Every entry of the table that answers the request, with its address.
pub fn candidates(table: &AddressTable, id: u128, filter: Option<Role>) -> (r: Vec<(u128, String)>)
    ensures
        lists_matching(table@, id, filter, r@),
        r@.map_values(|p: (u128, String)| p.0).to_set() == matching_ids(table@, id, filter),
        r@.len() == matching_ids(table@, id, filter).len(),
{
    let mut out: Vec<(u128, String)> = Vec::new();
    let ghost m = table@;
    let own: Option<&String> = match table.get(&id) {
        Some(entry) => Some(&entry.0),
        None => None,
    };
    assert(own_address(m, id) == match own {
        Some(a) => Some(a@),
        None => None::<Seq<char>>,
    });
    let ghost mut from: Seq<int> = Seq::empty();
    let ghost all = vstd::std_specs::hash::spec_hash_map_iter(table).remaining();
    proof {
        vstd::std_specs::hash::axiom_spec_hash_map_iter(table);
    }
    for kv in it: table.iter()
        invariant
            m == table@,
            own_address(m, id) == match own {
                Some(a) => Some(a@),
                None => None::<Seq<char>>,
            },
            all == vstd::std_specs::hash::spec_hash_map_iter(table).remaining(),
            it.seq() == all,
            all.no_duplicates(),
            forall|i: int|
                0 <= i < all.len() ==> #[trigger] m.contains_key(*all[i].0) && m[*all[i].0]
                    == *all[i].1,
            lists_matching(m, id, filter, out@),
            from.len() == out@.len(),
            forall|j: int|
                0 <= j < out@.len() ==> 0 <= #[trigger] from[j] < it.index() && *all[from[j]].0
                    == out@[j].0,
            forall|i: int|
                0 <= i < it.index() && entry_matches(own_address(m, id), filter, *all[i].1) ==> exists|
                    j: int,
                | 0 <= j < out@.len() && #[trigger] out@[j].0 == *all[i].0,
    {
        let ghost i = it.index();
        assert(kv == all[i]);
        let (k, v) = kv;
        let foreign = match own {
            Some(a) => !(v.0 == *a),
            None => true,
        };
        let wanted = foreign && match filter {
            Some(role) => v.1 == role,
            None => true,
        };
        if wanted {
            let ghost before = out@;
            out.push((*k, v.0.clone()));
            proof {
                assert(m.contains_key(*all[i].0));
                assert(m[*k] == *v);
                assert(entry_matches(own_address(m, id), filter, m[*k]));
                assert forall|j: int| 0 <= j < out@.len() implies {
                    &&& #[trigger] m.contains_key(out@[j].0)
                    &&& entry_matches(own_address(m, id), filter, m[out@[j].0])
                    &&& out@[j].1@ == m[out@[j].0].0@
                } by {
                    if j < before.len() {
                        assert(out@[j] == before[j]);
                        assert(m.contains_key(before[j].0));
                    }
                }
                assert forall|j1: int, j2: int|
                    0 <= j1 < j2 < out@.len() implies #[trigger] out@[j1].0 != #[trigger] out@[j2].0 by {
                    if j2 == before.len() {
                        let f = from[j1];
                        if *all[f].0 == *all[i].0 {
                            assert(all[f] == all[i]);
                        }
                    } else {
                        assert(out@[j1] == before[j1]);
                        assert(out@[j2] == before[j2]);
                    }
                }
                from = from.push(i);
                assert(out@[before.len() as int].0 == *all[i].0);
                assert forall|i2: int|
                    0 <= i2 <= i && entry_matches(own_address(m, id), filter, *all[i2].1) implies exists|
                        j: int,
                    | 0 <= j < out@.len() && #[trigger] out@[j].0 == *all[i2].0 by {
                    if i2 < i {
                        let j = choose|j: int| 0 <= j < before.len() && #[trigger] before[j].0 == *all[i2].0;
                        assert(out@[j] == before[j]);
                    } else {
                        assert(out@[before.len() as int].0 == *all[i2].0);
                    }
                }
            }
        }
    }
    proof {
        let ks = out@.map_values(|p: (u128, String)| p.0);
        let want = matching_ids(m, id, filter);
        assert forall|k: u128| #[trigger] ks.to_set().contains(k) == want.contains(k) by {
            if ks.to_set().contains(k) {
                let j = choose|j: int| 0 <= j < ks.len() && ks[j] == k;
                assert(out@[j].0 == k);
            }
            if want.contains(k) {
                assert(all.contains((&k, &m[k])));
                let i = choose|i: int| 0 <= i < all.len() && all[i] == (&k, &m[k]);
                let j = choose|j: int| 0 <= j < out@.len() && #[trigger] out@[j].0 == *all[i].0;
                assert(ks[j] == k);
            }
        }
        assert(ks.to_set() =~= want);
        assert(ks.no_duplicates()) by {
            assert forall|a: int, b: int| 0 <= a < ks.len() && 0 <= b < ks.len() && a != b implies ks[a] != ks[b] by {
                if a < b {
                    assert(out@[a].0 != out@[b].0);
                } else {
                    assert(out@[b].0 != out@[a].0);
                }
            }
        }
        ks.unique_seq_to_set();
    }
    out
}

/// Whether `reply` answers a request for the address of `id`: that
/// address where `id` is registered, `NoAddr` where it is not.
pub open spec fn answers_address(table: Map<u128, (String, Role)>, id: u128, reply: MessageData) -> bool {
    match reply {
        MessageData::PeerAddress((k, a)) => table.contains_key(id) && k == id && a@ == table[id].0@,
        MessageData::NoAddr => !table.contains_key(id),
        _ => false,
    }
}

/// Whether `reply` answers a request by `id` for nodes of role `filter`:
/// `NoAddr` where no entry matches, else as many matching entries as there
/// are, up to [`MAX_PEERS`].
pub open spec fn answers_peers(
    table: Map<u128, (String, Role)>,
    id: u128,
    filter: Option<Role>,
    reply: MessageData,
) -> bool {
    let n = matching_ids(table, id, filter).len();
    match reply {
        MessageData::NoAddr => n == 0,
        MessageData::PeerAddresses(v) => {
            &&& n > 0
            &&& v@.len() == if n < MAX_PEERS {
                n
            } else {
                MAX_PEERS as nat
            }
            &&& lists_matching(table, id, filter, v@)
        },
        _ => false,
    }
}

/// Answer to a request for the address of `id`.
pub fn get_connection(table: &AddressTable, id: u128) -> (r: MessageData)
    ensures
        answers_address(table@, id, r),
{
    match table.get(&id) {
        Some(entry) => MessageData::PeerAddress((id, entry.0.clone())),
        None => MessageData::NoAddr,
    }
}

/// Answer to a request by `id` for up to [`MAX_PEERS`] other nodes of role
/// `filter`, drawn at random among those that match.
pub fn get_connections(table: &AddressTable, id: u128, filter: Option<Role>) -> (r: MessageData)
    ensures
        answers_peers(table@, id, filter, r),
{
    let cands = candidates(table, id, filter);
    if cands.len() == 0 {
        return MessageData::NoAddr;
    }
    let picks = choose_indices(cands.len(), MAX_PEERS);
    let mut chosen: Vec<(u128, String)> = Vec::new();
    let mut j: usize = 0;
    while j < picks.len()
        invariant
            0 <= j <= picks@.len(),
            chosen@.len() == j,
            lists_matching(table@, id, filter, cands@),
            forall|i: int| 0 <= i < picks@.len() ==> picks@[i] < cands@.len(),
            picks@.no_duplicates(),
            forall|t: int|
                0 <= t < j ==> (#[trigger] chosen@[t]).0 == cands@[picks@[t] as int].0
                    && chosen@[t].1@ == cands@[picks@[t] as int].1@,
        decreases picks@.len() - j,
    {
        let p = picks[j];
        let entry = (cands[p].0, cands[p].1.clone());
        chosen.push(entry);
        j = j + 1;
    }
    proof {
        assert forall|t1: int, t2: int|
            0 <= t1 < t2 < chosen@.len() implies #[trigger] chosen@[t1].0 != #[trigger] chosen@[t2].0 by {
            let p1 = picks@[t1] as int;
            let p2 = picks@[t2] as int;
            assert(p1 != p2);
            if p1 < p2 {
                assert(cands@[p1].0 != cands@[p2].0);
            } else {
                assert(cands@[p2].0 != cands@[p1].0);
            }
        }
        assert forall|t: int| 0 <= t < chosen@.len() implies {
            &&& #[trigger] table@.contains_key(chosen@[t].0)
            &&& entry_matches(own_address(table@, id), filter, table@[chosen@[t].0])
            &&& chosen@[t].1@ == table@[chosen@[t].0].0@
        } by {
            let p = picks@[t] as int;
            assert(table@.contains_key(cands@[p].0));
        }
    }
    MessageData::PeerAddresses(chosen)
}

/// What the lookup service does after a message: answer it, or end the
/// conversation.
#[derive(Debug)]
pub enum LookupStep {
    /// Send this answer and wait for the next message.
    Reply(NetworkMessage),
    /// End the conversation.
    Finish,
}

/// Handles one message of a conversation with the lookup service: a
/// registration enters the table and is confirmed; requests for one address
/// or for several are answered from the table; `Finish` ends the
/// conversation; anything else is answered with `NoAddr`.
pub fn process_lookup(table: &mut AddressTable, message: &NetworkMessage) -> (r: LookupStep)
    ensures
        match message.data {
            MessageData::LookUpReg(id, addr, role) => (r matches LookupStep::Reply(m)
                && m.data is Confirm) && final(table)@ == old(table)@.insert(id, (addr, role)),
            MessageData::RequestAddress(id) => (r matches LookupStep::Reply(m) && answers_address(
                old(table)@,
                id,
                m.data,
            )) && final(table)@ == old(table)@,
            MessageData::GeneralAddrRequest(id, filter) => (r matches LookupStep::Reply(m)
                && answers_peers(old(table)@, id, filter, m.data)) && final(table)@ == old(table)@,
            MessageData::Finish => final(table)@ == old(table)@ && r is Finish,
            _ => (r matches LookupStep::Reply(m) && m.data is NoAddr) && final(table)@ == old(
                table,
            )@,
        },
{
    match &message.data {
        MessageData::LookUpReg(id, addr, role) => {
            table.insert(*id, (addr.clone(), *role));
            LookupStep::Reply(NetworkMessage::new(MessageData::Confirm))
        },
        MessageData::RequestAddress(id) => LookupStep::Reply(
            NetworkMessage::new(get_connection(table, *id)),
        ),
        MessageData::GeneralAddrRequest(id, filter) => LookupStep::Reply(
            NetworkMessage::new(get_connections(table, *id, *filter)),
        ),
        MessageData::Finish => LookupStep::Finish,
        _ => LookupStep::Reply(NetworkMessage::new(MessageData::NoAddr)),
    }
}

/// Why a reply of the lookup service to a request for addresses gives no
/// connections to open.
#[derive(Clone, Copy, Debug, PartialEq, Eq, Structural)]
pub enum LookupReplyError {
    /// The service knows no node that matches the request.
    NoAddresses,
    /// The reply is not an answer to a request for addresses.
    Unexpected,
}

/// Whether the lookup service confirmed a registration.
pub fn is_confirmation(reply: &MessageData) -> (r: bool)
    ensures
        r == reply is Confirm,
{
    match reply {
        MessageData::Confirm => true,
        _ => false,
    }
}

/// Whether `jobs` opens a connection to each node of `peers`, in order.
pub open spec fn connects_to(jobs: Seq<ProcessMessage>, peers: Seq<(u128, String)>) -> bool {
    &&& jobs.len() == peers.len()
    &&& forall|i: int|
        0 <= i < jobs.len() ==> (#[trigger] jobs[i] matches ProcessMessage::NewConnection(id, a)
            && id == peers[i].0 && a@ == peers[i].1@)
}

/// What a node does with the lookup service's reply to its request for
/// addresses: open a connection to each node it names, in order; where it
/// names none, or does not answer the request, there is nothing to open.
pub fn lookup_reply_jobs(reply: MessageData) -> (r: Result<Vec<ProcessMessage>, LookupReplyError>)
    ensures
        match reply {
            MessageData::PeerAddresses(v) => r matches Ok(jobs) && connects_to(jobs@, v@),
            MessageData::NoAddr => r == Err::<Vec<ProcessMessage>, _>(LookupReplyError::NoAddresses),
            _ => r == Err::<Vec<ProcessMessage>, _>(LookupReplyError::Unexpected),
        },
{
    match reply {
        MessageData::PeerAddresses(v) => {
            let mut jobs: Vec<ProcessMessage> = Vec::new();
            let mut i: usize = 0;
            while i < v.len()
                invariant
                    0 <= i <= v@.len(),
                    connects_to(jobs@, v@.take(i as int)),
                decreases v@.len() - i,
            {
                let ghost before = jobs@;
                jobs.push(ProcessMessage::NewConnection(v[i].0, v[i].1.clone()));
                assert forall|k: int| 0 <= k < jobs@.len() implies (#[trigger] jobs@[k] matches ProcessMessage::NewConnection(id, a)
                    && id == v@.take(i + 1)[k].0 && a@ == v@.take(i + 1)[k].1@) by {
                    if k < before.len() {
                        assert(jobs@[k] == before[k]);
                        assert(v@.take(i + 1)[k] == v@.take(i as int)[k]);
                    }
                }
                i = i + 1;
            }
            assert(v@.take(i as int) =~= v@);
            Ok(jobs)
        },
        MessageData::NoAddr => Err(LookupReplyError::NoAddresses),
        _ => Err(LookupReplyError::Unexpected),
    }
}

/// A request by `id` never gets back `id`'s own entry, nor any entry at the
/// address that `id` registered, nor more than [`MAX_PEERS`] entries, nor an
/// entry of another role than the one asked for.
pub proof fn lemma_peers_exclude_requester(
    table: Map<u128, (String, Role)>,
    id: u128,
    filter: Option<Role>,
    v: Vec<(u128, String)>,
)
    requires
        answers_peers(table, id, filter, MessageData::PeerAddresses(v)),
    ensures
        v@.len() <= MAX_PEERS,
        forall|j: int|
            0 <= j < v@.len() ==> {
                &&& (#[trigger] v@[j]).0 != id
                &&& table.contains_key(id) ==> v@[j].1@ != table[id].0@
                &&& filter matches Some(role) ==> table[v@[j].0].1 == role
            },
{
    assert forall|j: int| 0 <= j < v@.len() implies {
        &&& (#[trigger] v@[j]).0 != id
        &&& table.contains_key(id) ==> v@[j].1@ != table[id].0@
        &&& filter matches Some(role) ==> table[v@[j].0].1 == role
    } by {
        assert(table.contains_key(v@[j].0));
    }
}

} // verus!
