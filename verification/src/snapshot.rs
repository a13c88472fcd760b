//! The view of the watcher's state that is shown on the chat service.
use std::collections::HashMap;
use vstd::prelude::*;
use crate::clock::{clock_shows, unix_now};
use crate::lobby::Lobby;
use crate::watcher::{by_id, has_own_ids, ids_of, is_listing, is_listing_by, lemma_by_id, WatcherState};

verus! {

broadcast use vstd::std_specs::hash::group_hash_axioms;

/// No lobby has fewer members than one behind it.
pub open spec fn is_busiest_first(lobbies: Seq<Lobby>) -> bool {
    forall|i: int, j: int|
        0 <= i < j < lobbies.len() ==> (#[trigger] lobbies[i]).members >= (
        #[trigger] lobbies[j]).members
}

/// The unix time of the last completed poll: whole seconds since then, taken off the
/// time that the wall clock shows now, and 0 where that would be before the epoch.
/// `now` and `last_poll` are nanoseconds of the monotonic clock.
pub open spec fn updated_unix(unix_now: nat, now: nat, last_poll: nat) -> nat {
    let secs: nat = if now > last_poll {
        ((now - last_poll) as nat) / 1_000_000_000
    } else {
        0
    };
    if unix_now > secs {
        (unix_now - secs) as nat
    } else {
        0
    }
}

/// An item put in anywhere is the one that comes in addition.
proof fn lemma_insert(keys: Seq<u64>, p: int, k: u64)
    requires
        0 <= p <= keys.len(),
    ensures
        keys.insert(p, k).to_set() == keys.to_set().insert(k),
        keys.no_duplicates() && !keys.contains(k) ==> keys.insert(p, k).no_duplicates(),
{
    keys.insert_ensures(p, k);
    let longer = keys.insert(p, k);
    assert forall|x: u64| longer.to_set().contains(x) <==> keys.to_set().insert(k).contains(x) by {
        if keys.contains(x) {
            let j = choose|j: int| 0 <= j < keys.len() && keys[j] == x;
            if j < p {
                assert(longer[j] == x);
            } else {
                assert(longer[j + 1] == x);
            }
        }
        if x == k {
            assert(longer[p] == x);
        }
        if longer.contains(x) && x != k {
            let j = choose|j: int| 0 <= j < longer.len() && longer[j] == x;
            if j < p {
                assert(keys[j] == x);
            } else {
                assert(keys[j - 1] == x);
            }
        }
    }
    assert(longer.to_set() == keys.to_set().insert(k));
}

/// The lobbies of `m`, busiest first.
fn busiest_first(m: &HashMap<u64, Lobby>) -> (r: Vec<Lobby>)
    ensures
        is_listing(m@, r@),
        is_busiest_first(r@),
{
    let ids = ids_of(m);
    let mut out: Vec<Lobby> = Vec::new();
    let ghost mut keys: Seq<u64> = Seq::empty();
    assert(ids@.take(0).to_set() == keys.to_set());
    let mut i: usize = 0;
    while i < ids.len()
        invariant
            i <= ids.len(),
            ids@.no_duplicates(),
            ids@.to_set() == m@.dom(),
            keys.no_duplicates(),
            keys.to_set() == ids@.take(i as int).to_set(),
            out@ == keys.map_values(|k: u64| m@[k]),
            is_busiest_first(out@),
        decreases ids.len() - i,
    {
        let id: u64 = ids[i];
        assert(ids@.to_set().contains(id));
        if let Some(lobby) = m.get(&id) {
            let mut p: usize = 0;
            while p < out.len() && out[p].members >= lobby.members
                invariant
                    p <= out.len(),
                    forall|j: int| 0 <= j < p ==> (#[trigger] out@[j]).members >= lobby.members,
                decreases out.len() - p,
            {
                p += 1;
            }
            let ghost before = out@;
            out.insert(p, lobby.clone());
            proof {
                assert(!keys.contains(id)) by {
                    if keys.contains(id) {
                        assert(keys.to_set().contains(id));
                        let j = choose|j: int| 0 <= j < i && ids@.take(i as int)[j] == id;
                        assert(ids@[j] == ids@[i as int]);
                    }
                }
                lemma_insert(keys, p as int, id);
                assert(ids@.take(i + 1) == ids@.take(i as int).insert(i as int, id));
                lemma_insert(ids@.take(i as int), i as int, id);
                let longer = keys.insert(p as int, id);
                assert(out@ == longer.map_values(|k: u64| m@[k]));
                keys = longer;
                assert forall|a: int, b: int| 0 <= a < b < out@.len() implies (
                #[trigger] out@[a]).members >= (#[trigger] out@[b]).members by {
                    let a0: int = if a < p { a } else { a - 1 };
                    let b0: int = if b < p { b } else { b - 1 };
                    if a == p {
                        assert(out@[b] == before[b0]);
                        assert(before[p as int].members >= before[b0].members);
                    } else if b == p {
                        assert(out@[a] == before[a]);
                    } else {
                        assert(out@[a] == before[a0] && out@[b] == before[b0]);
                    }
                }
            }
        }
        i += 1;
    }
    proof {
        assert(ids@.take(i as int) == ids@);
        assert(is_listing_by(m@, keys, out@));
    }
    out
}

/// Every lobby of the last poll, busiest first, the poll's index, and its unix time
/// for what the two clocks show.
pub fn lobby_snapshot_at(state: &WatcherState, now: u128, unix_now: u64) -> (r: (Vec<Lobby>, u64, u64))
    ensures
        is_listing(state.prev@, r.0@),
        is_busiest_first(r.0@),
        r.1 == state.poll_index,
        r.2 == updated_unix(unix_now as nat, now as nat, state.last_poll as nat),
{
    let lobbies = busiest_first(&state.prev);
    let secs: u128 = if now > state.last_poll {
        (now - state.last_poll) / 1_000_000_000
    } else {
        0
    };
    let updated: u64 = if unix_now as u128 > secs {
        unix_now - (secs as u64)
    } else {
        0
    };
    (lobbies, state.poll_index, updated)
}

/// Every lobby of the last poll, busiest first, the poll's index, and its unix time.
/// `now` is the monotonic clock's reading; the wall clock is read here.
pub fn lobby_snapshot(state: &WatcherState, now: u128) -> (r: (Vec<Lobby>, u64, u64))
    ensures
        is_listing(state.prev@, r.0@),
        is_busiest_first(r.0@),
        r.1 == state.poll_index,
        exists|unix_now: u64|
            clock_shows(unix_now) && r.2 == #[trigger] updated_unix(
                unix_now as nat,
                now as nat,
                state.last_poll as nat,
            ),
{
    lobby_snapshot_at(state, now, unix_now())
}

/// A listing is as long as its map is large and holds the map's values.
pub proof fn law_listing_is_complete(m: Map<u64, Lobby>, lobbies: Seq<Lobby>)
    requires
        is_listing(m, lobbies),
    ensures
        lobbies.len() == m.dom().len(),
        forall|l: Lobby| lobbies.contains(l) <==> m.values().contains(l),
{
    let keys = choose|keys: Seq<u64>| is_listing_by(m, keys, lobbies);
    keys.unique_seq_to_set();
    assert forall|l: Lobby| lobbies.contains(l) <==> m.values().contains(l) by {
        if m.values().contains(l) {
            let id = choose|id: u64| #[trigger] m.dom().contains(id) && m[id] == l;
            assert(keys.to_set().contains(id));
            let i = choose|i: int| 0 <= i < keys.len() && keys[i] == id;
            assert(lobbies[i] == l);
        }
        if lobbies.contains(l) {
            let i = choose|i: int| 0 <= i < lobbies.len() && lobbies[i] == l;
            assert(keys.contains(keys[i]));
            assert(keys.to_set().contains(keys[i]));
            assert(m.dom().contains(keys[i]) && m[keys[i]] == l);
        }
    }
}

proof fn lemma_by_id_len(current: Seq<Lobby>)
    requires
        has_own_ids(current),
    ensures
        by_id(current).dom().finite(),
        by_id(current).dom().len() == current.len(),
    decreases current.len(),
{
    if current.len() > 0 {
        let rest = current.drop_last();
        lemma_by_id_len(rest);
        lemma_by_id(rest);
        let id = current.last().id;
        if by_id(rest).contains_key(id) {
            let j = choose|j: int| 0 <= j < rest.len() && rest[j] == by_id(rest)[id];
            assert(current[j].id == current[current.len() - 1].id);
        }
        assert(by_id(current).dom() == by_id(rest).dom().insert(id));
    }
}

/// A snapshot shows the last poll and nothing else: where the poll's lobbies have an id
/// each, a listing of them holds every one of them once, whatever its order.
pub proof fn law_snapshot_shows_the_poll(current: Seq<Lobby>, lobbies: Seq<Lobby>)
    requires
        has_own_ids(current),
        is_listing(by_id(current), lobbies),
    ensures
        lobbies.len() == current.len(),
        forall|l: Lobby| lobbies.contains(l) <==> current.contains(l),
{
    law_listing_is_complete(by_id(current), lobbies);
    lemma_by_id_len(current);
    lemma_by_id(current);
    assert forall|l: Lobby| lobbies.contains(l) <==> current.contains(l) by {
        if lobbies.contains(l) {
            assert(by_id(current).values().contains(l));
            let id = choose|id: u64|
                #[trigger] by_id(current).dom().contains(id) && by_id(current)[id] == l;
            assert(by_id(current).contains_key(id));
        }
        if current.contains(l) {
            let i = choose|i: int| 0 <= i < current.len() && current[i] == l;
            assert(by_id(current).contains_key(current[i].id));
            let l1 = by_id(current)[l.id];
            let j = choose|j: int| 0 <= j < current.len() && current[j] == l1;
            assert(current[j].id == current[i].id);
            assert(i == j);
            assert(by_id(current).dom().contains(l.id));
            assert(by_id(current).values().contains(l));
        }
    }
}

/// The time of the update lies as many whole seconds before the wall clock's time as have
/// passed since the poll; it is 0 only where that would be at the epoch or before it.
pub proof fn law_update_time(unix_now: nat, now: nat, last_poll: nat)
    ensures
        updated_unix(unix_now, now, last_poll) <= unix_now,
        now <= last_poll ==> updated_unix(unix_now, now, last_poll) == unix_now,
        now > last_poll && updated_unix(unix_now, now, last_poll) > 0 ==> {
            let ago = unix_now - updated_unix(unix_now, now, last_poll);
            1_000_000_000 * ago <= now - last_poll < 1_000_000_000 * (ago + 1)
        },
        now > last_poll && updated_unix(unix_now, now, last_poll) == 0 ==> 1_000_000_000 * unix_now
            <= now - last_poll,
{
}

/// A snapshot holds exactly the lobbies of the last poll, each once, none behind one with fewer
/// members, the poll's number, and the time of the update.
pub proof fn law_snapshot(state: &WatcherState, now: u128, unix_now: u64, r: (Vec<Lobby>, u64, u64))
    requires
        call_ensures(lobby_snapshot_at, (state, now, unix_now), r),
    ensures
        r.0@.len() == state.prev@.dom().len(),
        forall|l: Lobby| r.0@.contains(l) <==> state.prev@.values().contains(l),
        forall|i: int, j: int|
            0 <= i < j < r.0@.len() ==> (#[trigger] r.0@[i]).members >= (
            #[trigger] r.0@[j]).members,
        r.1 == state.poll_index,
        r.2 == updated_unix(unix_now as nat, now as nat, state.last_poll as nat),
{
    law_listing_is_complete(state.prev@, r.0@);
}

/// A snapshot taken now is the one for a time that the wall clock can show.
pub proof fn law_snapshot_now(state: &WatcherState, now: u128, r: (Vec<Lobby>, u64, u64))
    requires
        call_ensures(lobby_snapshot, (state, now), r),
    ensures
        r.0@.len() == state.prev@.dom().len(),
        forall|l: Lobby| r.0@.contains(l) <==> state.prev@.values().contains(l),
        forall|i: int, j: int|
            0 <= i < j < r.0@.len() ==> (#[trigger] r.0@[i]).members >= (
            #[trigger] r.0@[j]).members,
        r.1 == state.poll_index,
        exists|unix_now: u64|
            clock_shows(unix_now) && r.2 == #[trigger] updated_unix(
                unix_now as nat,
                now as nat,
                state.last_poll as nat,
            ),
{
    law_listing_is_complete(state.prev@, r.0@);
}

} // verus!
