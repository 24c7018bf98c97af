//! Bookkeeping of a node's open connections, keyed by the peer's identifier.
use vstd::prelude::*;

use std::collections::HashMap;

verus! {

broadcast use vstd::std_specs::hash::group_hash_axioms;

/// The peer already has a connection in the pool.
#[derive(Clone, Copy, Debug, PartialEq, Eq, Structural)]
pub struct AlreadyInPool;

/// Adds the connection of peer `id`, unless the pool already has one.
pub fn add_connection<V>(map: &mut HashMap<u128, V>, connection: V, id: u128) -> (r: Result<
    (),
    AlreadyInPool,
>)
    ensures
        r is Ok <==> !old(map)@.contains_key(id),
        final(map)@ == if r is Ok {
            old(map)@.insert(id, connection)
        } else {
            old(map)@
        },
{
    if !map.contains_key(&id) {
        map.insert(id, connection);
        Ok(())
    } else {
        Err(AlreadyInPool)
    }
}

/// Removes the connections of every peer in `dead`, emptying `dead`, and
/// returns how many connections were removed, so that a count of the pool's
/// connections stays equal to its size.
pub fn clear_connections<V>(map: &mut HashMap<u128, V>, dead: &mut Vec<u128>) -> (r: usize)
    ensures
        final(dead)@.len() == 0,
        final(map)@ == old(map)@.remove_keys(old(dead)@.to_set()),
        r + final(map)@.len() == old(map)@.len(),
{
    let ghost all = dead@;
    let ghost start = map@;
    let total = map.len();
    let mut removed: usize = 0;
    assert(all.take(all.len() as int) =~= all);
    assert(all.skip(all.len() as int).to_set() =~= Set::<u128>::empty());
    assert(start.remove_keys(Set::<u128>::empty()) =~= start);
    while dead.len() > 0
        invariant
            dead@.len() <= all.len(),
            dead@ == all.take(dead@.len() as int),
            map@ == start.remove_keys(all.skip(dead@.len() as int).to_set()),
            total == start.len(),
            removed + map@.len() == total,
        decreases dead@.len(),
    {
        let ghost n = dead@.len();
        let ghost before = map@;
        let id = dead.pop().unwrap();
        assert(id == all[n - 1]);
        let gone = map.remove(&id);
        if gone.is_some() {
            assert(before.dom().contains(id));
            assert(before.dom().remove(id).len() == before.dom().len() - 1);
            assert(map@.dom() =~= before.dom().remove(id));
            removed = removed + 1;
        } else {
            assert(map@ =~= before);
        }
        assert(all.take(n - 1) =~= all.take(n as int).drop_last());
        let ghost s1 = all.skip(n - 1);
        let ghost s0 = all.skip(n as int);
        assert(s1.to_set() =~= s0.to_set().insert(id)) by {
            assert forall|x: u128| s1.to_set().contains(x) <==> s0.to_set().insert(id).contains(x) by {
                if s1.to_set().contains(x) {
                    let k = choose|k: int| 0 <= k < s1.len() && #[trigger] s1[k] == x;
                    if k > 0 {
                        assert(s0[k - 1] == x);
                    }
                }
                if s0.to_set().contains(x) {
                    let k = choose|k: int| 0 <= k < s0.len() && #[trigger] s0[k] == x;
                    assert(s1[k + 1] == x);
                }
                if x == id {
                    assert(s1[0] == x);
                }
            }
        }
        assert(map@ =~= start.remove_keys(all.skip(n - 1).to_set()));
    }
    assert(all.skip(0) =~= all);
    removed
}

} // verus!
