//! What the watcher knows, how one poll changes it, and when to poll.
use std::collections::HashMap;
use vstd::prelude::*;
use crate::lobby::Lobby;
use crate::log::{EventKind, LobbyEvent};

verus! {

broadcast use vstd::std_specs::hash::group_hash_axioms;

/// Time between two scheduled searches: 15 s in nanoseconds.
pub const POLL_INTERVAL: u128 = 15_000_000_000;

/// A search that has not answered after this time hangs: 20 s in nanoseconds.
pub const SEARCH_DEADLINE: u128 = 20_000_000_000;

/// Everything the watcher keeps between polls. The three times are readings of
/// one monotonic clock, in nanoseconds.
pub struct WatcherState {
    /// The lobbies of the last completed poll, by id.
    pub prev: HashMap<u64, Lobby>,
    /// The lobbies that the poll before it showed and the last one did not, by id.
    pub absent: HashMap<u64, Lobby>,
    pub poll_index: u64,
    /// A lobby-list request is in flight.
    pub pending: bool,
    pub request_sent: u128,
    pub next_poll: u128,
    pub last_poll: u128,
    /// Path of the history log.
    pub lobby_log: String,
}

/// The lobbies that the watcher keeps track of.
pub struct Roster {
    pub prev: Map<u64, Lobby>,
    pub absent: Map<u64, Lobby>,
}

/// The lobbies of a poll by id; of two with one id the later.
pub open spec fn by_id(lobbies: Seq<Lobby>) -> Map<u64, Lobby>
    decreases lobbies.len(),
{
    if lobbies.len() == 0 {
        Map::empty()
    } else {
        by_id(lobbies.drop_last()).insert(lobbies.last().id, lobbies.last())
    }
}

impl Roster {
    /// Each lobby stands under its own id, and none is both present and absent.
    pub open spec fn wf(self) -> bool {
        &&& forall|id: u64| #[trigger] self.prev.contains_key(id) ==> self.prev[id].id == id
        &&& forall|id: u64| #[trigger] self.absent.contains_key(id) ==> self.absent[id].id == id
        &&& self.prev.dom().disjoint(self.absent.dom())
    }

    /// The last sighting of every lobby that has not been reported as deleted.
    pub open spec fn known(self) -> Map<u64, Lobby> {
        self.absent.union_prefer_right(self.prev)
    }

    /// What a poll that shows `lobby` reports of it.
    pub open spec fn kind_of(self, lobby: Lobby) -> Option<EventKind> {
        if !self.known().contains_key(lobby.id) {
            Some(EventKind::Created)
        } else if !self.known()[lobby.id].is_same(lobby) {
            Some(EventKind::Updated)
        } else {
            None
        }
    }

    /// The events of the lobbies that a poll shows, in the poll's order.
    pub open spec fn sightings(self, current: Seq<Lobby>) -> Seq<LobbyEvent>
        decreases current.len(),
    {
        if current.len() == 0 {
            Seq::empty()
        } else {
            let earlier = self.sightings(current.drop_last());
            match self.kind_of(current.last()) {
                Some(kind) => earlier.push(LobbyEvent { kind, lobby: current.last() }),
                None => earlier,
            }
        }
    }

    /// The lobbies that a poll reports as deleted: those that it misses for the
    /// second time in a row.
    pub open spec fn gone(self, current: Seq<Lobby>) -> Map<u64, Lobby> {
        self.absent.remove_keys(by_id(current).dom())
    }

    /// The roster after a poll.
    pub open spec fn polled(self, current: Seq<Lobby>) -> Roster {
        Roster { prev: by_id(current), absent: self.prev.remove_keys(by_id(current).dom()) }
    }
}

/// `lobbies` are the values of `m`, each once, in the order of `keys`.
pub open spec fn is_listing_by(m: Map<u64, Lobby>, keys: Seq<u64>, lobbies: Seq<Lobby>) -> bool {
    &&& keys.no_duplicates()
    &&& keys.to_set() == m.dom()
    &&& lobbies == keys.map_values(|k: u64| m[k])
}

/// `lobbies` are the values of `m`, each once, in some order.
pub open spec fn is_listing(m: Map<u64, Lobby>, lobbies: Seq<Lobby>) -> bool {
    exists|keys: Seq<u64>| is_listing_by(m, keys, lobbies)
}

/// How many of the events are of a kind.
pub open spec fn tally(events: Seq<LobbyEvent>, kind: EventKind) -> nat
    decreases events.len(),
{
    if events.len() == 0 {
        0
    } else {
        tally(events.drop_last(), kind) + (if events.last().kind == kind {
            1nat
        } else {
            0
        })
    }
}

/// What one completed poll has to report.
pub struct PollReport {
    pub poll: u64,
    pub total: usize,
    pub created: usize,
    pub deleted: usize,
    pub updated: usize,
    /// Created and updated lobbies in the order of the poll, then deleted ones.
    pub events: Vec<LobbyEvent>,
}

impl PollReport {
    /// The report is what a poll that shows `current` has to say to a watcher with
    /// the given roster.
    pub open spec fn reports(self, roster: Roster, current: Seq<Lobby>) -> bool {
        let seen = roster.sightings(current);
        let n = seen.len() as int;
        &&& self.total == current.len()
        &&& self.created == tally(self.events@, EventKind::Created)
        &&& self.updated == tally(self.events@, EventKind::Updated)
        &&& self.deleted == tally(self.events@, EventKind::Deleted)
        &&& n <= self.events@.len()
        &&& self.events@.take(n) == seen
        &&& forall|i: int|
            n <= i < self.events@.len() ==> (#[trigger] self.events@[i]).kind == EventKind::Deleted
        &&& is_listing(
            roster.gone(current),
            self.events@.skip(n).map_values(|e: LobbyEvent| e.lobby),
        )
    }
}

/// What the main loop has to do now.
#[derive(Clone, Copy, Debug, PartialEq, Eq, Structural)]
pub enum PollAction {
    /// Send a lobby-list request.
    Search,
    /// The request in flight was given up; the next step sends a new one.
    GiveUp,
    Wait,
}

/// When the last search was sent and when the next one is due.
pub struct Schedule {
    pub pending: bool,
    pub request_sent: int,
    pub next_poll: int,
}

impl Schedule {
    /// What is to be done at the time `now`.
    pub open spec fn action(self, now: int) -> PollAction {
        if !self.pending && now >= self.next_poll {
            PollAction::Search
        } else if self.pending && now - self.request_sent > SEARCH_DEADLINE {
            PollAction::GiveUp
        } else {
            PollAction::Wait
        }
    }

    /// The schedule after that was done.
    pub open spec fn stepped(self, now: int) -> Schedule {
        match self.action(now) {
            PollAction::Search => Schedule {
                pending: true,
                request_sent: now,
                next_poll: now + POLL_INTERVAL,
            },
            PollAction::GiveUp => Schedule { pending: false, next_poll: now, ..self },
            PollAction::Wait => self,
        }
    }

    /// The schedule after a search has answered.
    pub open spec fn answered(self) -> Schedule {
        Schedule { pending: false, ..self }
    }
}

impl WatcherState {
    pub open spec fn roster(self) -> Roster {
        Roster { prev: self.prev@, absent: self.absent@ }
    }

    pub open spec fn schedule(self) -> Schedule {
        Schedule {
            pending: self.pending,
            request_sent: self.request_sent as int,
            next_poll: self.next_poll as int,
        }
    }

    /// The state of a watcher that starts at the time `now`: nothing is known, and
    /// the first search is due at once.
    pub fn new(lobby_log: String, now: u128) -> (r: WatcherState)
        ensures
            r.prev@ == Map::<u64, Lobby>::empty(),
            r.absent@ == Map::<u64, Lobby>::empty(),
            r.poll_index == 0,
            !r.pending,
            r.request_sent == now,
            r.next_poll == now,
            r.last_poll == now,
            r.lobby_log == lobby_log,
            r.roster().wf(),
            r.schedule().action(now as int) == PollAction::Search,
    {
        WatcherState {
            prev: HashMap::new(),
            absent: HashMap::new(),
            poll_index: 0,
            pending: false,
            request_sent: now,
            next_poll: now,
            last_poll: now,
            lobby_log,
        }
    }

    /// One step of the main loop.
    pub fn poll_step(&mut self, now: u128) -> (r: PollAction)
        requires
            old(self).schedule().action(now as int) == PollAction::Search ==> now <= u128::MAX
                - POLL_INTERVAL,
        ensures
            r == old(self).schedule().action(now as int),
            final(self).schedule() == old(self).schedule().stepped(now as int),
            final(self).roster() == old(self).roster(),
            final(self).poll_index == old(self).poll_index,
            final(self).last_poll == old(self).last_poll,
            final(self).lobby_log == old(self).lobby_log,
    {
        if !self.pending && now >= self.next_poll {
            self.pending = true;
            self.request_sent = now;
            self.next_poll = now + POLL_INTERVAL;
            PollAction::Search
        } else if self.pending && now > self.request_sent && now - self.request_sent
            > SEARCH_DEADLINE {
            self.pending = false;
            self.next_poll = now;
            PollAction::GiveUp
        } else {
            PollAction::Wait
        }
    }

    /// Takes a search's answer: the lobbies it found, or nothing for a search that
    /// failed, which counts as no poll.
    pub fn search_answered(&mut self, found: Option<Vec<Lobby>>, now: u128) -> (r: Option<PollReport>)
        requires
            found is Some ==> old(self).poll_index < u64::MAX,
        ensures
            final(self).schedule() == old(self).schedule().answered(),
            final(self).lobby_log == old(self).lobby_log,
            found is None ==> {
                &&& r is None
                &&& final(self).roster() == old(self).roster()
                &&& final(self).poll_index == old(self).poll_index
                &&& final(self).last_poll == old(self).last_poll
            },
            found matches Some(current) ==> {
                &&& final(self).roster() == old(self).roster().polled(current@)
                &&& final(self).poll_index == old(self).poll_index + 1
                &&& final(self).last_poll == now
                &&& r matches Some(report)
                &&& report.poll == old(self).poll_index + 1
                &&& report.reports(old(self).roster(), current@)
            },
    {
        self.pending = false;
        match found {
            Some(current) => {
                self.poll_index = self.poll_index + 1;
                Some(process_poll(self, current, now))
            },
            None => None,
        }
    }
}

/// The ids under which `m` holds a lobby, each once, in some order.
pub fn ids_of(m: &HashMap<u64, Lobby>) -> (r: Vec<u64>)
    ensures
        r@.no_duplicates(),
        r@.to_set() == m@.dom(),
{
    let mut out: Vec<u64> = Vec::new();
    for key in it: m.keys()
        invariant
            it.seq().unref().to_set() == m@.dom(),
            it.seq().no_duplicates(),
            out@.len() == it.index(),
            forall|i: int| 0 <= i < out@.len() ==> out@[i] == *it.seq()[i],
            it.index() == it.seq().len() ==> out@ == it.seq().unref() && out@.no_duplicates()
                && out@.to_set() == m@.dom(),
    {
        out.push(*key);
        assert(out@ == it.seq().unref().take(out@.len() as int));
        assert(out@.len() == it.seq().len() ==> out@ == it.seq().unref());
    }
    out
}

/// The lobbies of `m` that are not in `seen`, each once, in some order.
fn unseen(m: &HashMap<u64, Lobby>, seen: &HashMap<u64, Lobby>) -> (r: Vec<Lobby>)
    ensures
        is_listing(m@.remove_keys(seen@.dom()), r@),
{
    let ids = ids_of(m);
    let mut out: Vec<Lobby> = Vec::new();
    let ghost rest = m@.remove_keys(seen@.dom());
    let ghost mut keys: Seq<u64> = Seq::empty();
    let mut i: usize = 0;
    while i < ids.len()
        invariant
            i <= ids.len(),
            ids@.no_duplicates(),
            ids@.to_set() == m@.dom(),
            rest == m@.remove_keys(seen@.dom()),
            keys.no_duplicates(),
            forall|k: u64|
                #[trigger] keys.contains(k) <==> rest.contains_key(k) && ids@.take(
                    i as int,
                ).contains(k),
            out@ == keys.map_values(|k: u64| rest[k]),
        decreases ids.len() - i,
    {
        let id: u64 = ids[i];
        proof {
            assert(ids@.to_set().contains(id));
            lemma_one_more(ids@, i as int);
        }
        if !seen.contains_key(&id) {
            if let Some(lobby) = m.get(&id) {
                out.push(lobby.clone());
                proof {
                    assert(!keys.contains(id));
                    let longer = keys.push(id);
                    assert(longer.take(keys.len() as int) == keys);
                    lemma_one_more(longer, keys.len() as int);
                    assert(longer.take(longer.len() as int) == longer);
                    assert(longer.no_duplicates());
                    keys = longer;
                    assert(out@ == keys.map_values(|k: u64| rest[k]));
                }
            }
        }
        i += 1;
    }
    proof {
        assert(ids@.take(i as int) == ids@);
        assert forall|k: u64| keys.to_set().contains(k) <==> rest.dom().contains(k) by {
            assert(ids@.to_set().contains(k) <==> m@.dom().contains(k));
            assert(keys.contains(k) <==> rest.contains_key(k));
        }
        assert(keys.to_set() == rest.dom());
        assert(is_listing_by(rest, keys, out@));
    }
    out
}

/// A longer prefix holds one more item, which a sequence without duplicates does
/// not hold in the shorter one.
proof fn lemma_one_more(s: Seq<u64>, n: int)
    requires
        0 <= n < s.len(),
    ensures
        forall|k: u64| #[trigger] s.take(n + 1).contains(k) <==> s.take(n).contains(k) || k == s[n],
        s.no_duplicates() ==> !s.take(n).contains(s[n]),
{
    assert forall|k: u64| #[trigger] s.take(n + 1).contains(k) <==> s.take(n).contains(k) || k
        == s[n] by {
        let longer = s.take(n + 1);
        if s.take(n).contains(k) {
            let j = choose|j: int| 0 <= j < n && s.take(n)[j] == k;
            assert(longer[j] == k);
        }
        if k == s[n] {
            assert(longer[n] == k);
        }
        if longer.contains(k) && k != s[n] {
            let j = choose|j: int| 0 <= j < n + 1 && longer[j] == k;
            assert(s.take(n)[j] == k);
        }
    }
    if s.no_duplicates() && s.take(n).contains(s[n]) {
        let j = choose|j: int| 0 <= j < n && s.take(n)[j] == s[n];
        assert(s[j] == s[n]);
    }
}

/// Compares a completed poll with what is known and takes it over.
pub fn process_poll(state: &mut WatcherState, current: Vec<Lobby>, now: u128) -> (report: PollReport)
    ensures
        final(state).roster() == old(state).roster().polled(current@),
        final(state).last_poll == now,
        final(state).poll_index == old(state).poll_index,
        final(state).pending == old(state).pending,
        final(state).request_sent == old(state).request_sent,
        final(state).next_poll == old(state).next_poll,
        final(state).lobby_log == old(state).lobby_log,
        report.poll == old(state).poll_index,
        report.reports(old(state).roster(), current@),
{
    let ghost roster = state.roster();
    let mut created: usize = 0;
    let mut updated: usize = 0;
    let mut events: Vec<LobbyEvent> = Vec::new();
    let mut next_prev: HashMap<u64, Lobby> = HashMap::new();
    let mut i: usize = 0;
    while i < current.len()
        invariant
            i <= current.len(),
            roster == state.roster(),
            next_prev@ == by_id(current@.take(i as int)),
            events@ == roster.sightings(current@.take(i as int)),
            created == tally(events@, EventKind::Created),
            updated == tally(events@, EventKind::Updated),
            tally(events@, EventKind::Deleted) == 0,
            created <= i,
            updated <= i,
        decreases current.len() - i,
    {
        let lobby = &current[i];
        proof {
            assert(current@.take(i + 1).drop_last() == current@.take(i as int));
        }
        next_prev.insert(lobby.id, lobby.clone());
        let last_seen = match state.prev.get(&lobby.id) {
            Some(l) => Some(l),
            None => state.absent.get(&lobby.id),
        };
        let kind = match last_seen {
            None => Some(EventKind::Created),
            Some(l) => if l.same(lobby) {
                None
            } else {
                Some(EventKind::Updated)
            },
        };
        assert(kind == roster.kind_of(*lobby));
        let ghost before = events@;
        if let Some(kind) = kind {
            if kind == EventKind::Created {
                created += 1;
            } else {
                updated += 1;
            }
            events.push(LobbyEvent { kind, lobby: lobby.clone() });
            assert(events@.drop_last() == before);
        }
        i += 1;
    }
    assert(current@.take(i as int) == current@);
    let missed_twice = unseen(&state.absent, &next_prev);
    let ghost seen = events@;
    let ghost n: int = seen.len() as int;
    let mut deleted: usize = 0;
    while deleted < missed_twice.len()
        invariant
            deleted <= missed_twice.len(),
            n == seen.len(),
            events@.len() == n + deleted,
            events@.take(n) == seen,
            forall|j: int|
                n <= j < n + deleted ==> (#[trigger] events@[j]).kind == EventKind::Deleted
                    && events@[j].lobby == missed_twice@[j - n],
            created == tally(events@, EventKind::Created),
            updated == tally(events@, EventKind::Updated),
            deleted == tally(events@, EventKind::Deleted),
        decreases missed_twice.len() - deleted,
    {
        let ghost before = events@;
        events.push(
            LobbyEvent { kind: EventKind::Deleted, lobby: missed_twice[deleted].clone() },
        );
        proof {
            assert(events@.drop_last() == before);
            assert(events@.take(n) == before.take(n));
        }
        deleted += 1;
    }
    proof {
        assert(events@.skip(n).map_values(|e: LobbyEvent| e.lobby) == missed_twice@);
    }
    let ids = ids_of(&next_prev);
    let mut absent: HashMap<u64, Lobby> = HashMap::new();
    std::mem::swap(&mut absent, &mut state.prev);
    let mut k: usize = 0;
    while k < ids.len()
        invariant
            k <= ids.len(),
            absent@ == roster.prev.remove_keys(ids@.take(k as int).to_set()),
        decreases ids.len() - k,
    {
        proof {
            lemma_one_more(ids@, k as int);
        }
        absent.remove(&ids[k]);
        k += 1;
    }
    assert(ids@.take(k as int) == ids@);
    state.prev = next_prev;
    state.absent = absent;
    state.last_poll = now;
    PollReport {
        poll: state.poll_index,
        total: current.len(),
        created,
        deleted,
        updated,
        events,
    }
}

/// Each entry is a lobby of the poll under its own id, and every id has an entry.
pub(crate) proof fn lemma_by_id(lobbies: Seq<Lobby>)
    ensures
        forall|id: u64|
            #[trigger] by_id(lobbies).contains_key(id) ==> by_id(lobbies)[id].id == id
                && lobbies.contains(by_id(lobbies)[id]),
        forall|i: int|
            0 <= i < lobbies.len() ==> by_id(lobbies).contains_key((#[trigger] lobbies[i]).id),
    decreases lobbies.len(),
{
    if lobbies.len() > 0 {
        let rest = lobbies.drop_last();
        lemma_by_id(rest);
        assert forall|id: u64| #[trigger] by_id(lobbies).contains_key(id) implies by_id(
            lobbies,
        )[id].id == id && lobbies.contains(by_id(lobbies)[id]) by {
            if id == lobbies.last().id {
                assert(lobbies[lobbies.len() - 1] == lobbies.last());
            } else {
                let j = choose|j: int| 0 <= j < rest.len() && rest[j] == by_id(rest)[id];
                assert(lobbies[j] == rest[j]);
            }
        }
        assert forall|i: int| 0 <= i < lobbies.len() implies by_id(lobbies).contains_key(
            (#[trigger] lobbies[i]).id,
        ) by {
            if i < rest.len() {
                assert(rest[i] == lobbies[i]);
            }
        }
    }
}

/// No poll breaks the roster.
pub proof fn law_poll_keeps_roster(roster: Roster, current: Seq<Lobby>)
    requires
        roster.wf(),
    ensures
        roster.polled(current).wf(),
{
    lemma_by_id(current);
}

/// A poll shows exactly the ids of its lobbies; the last of two with one id counts.
pub proof fn law_present_are_the_polled(roster: Roster, current: Seq<Lobby>, id: u64)
    ensures
        roster.polled(current).prev.contains_key(id) <==> (exists|i: int|
            0 <= i < current.len() && (#[trigger] current[i]).id == id),
        roster.polled(current).prev.contains_key(id) ==> current.contains(
            roster.polled(current).prev[id],
        ),
{
    lemma_by_id(current);
    if roster.polled(current).prev.contains_key(id) {
        let l = by_id(current)[id];
        let i = choose|i: int| 0 <= i < current.len() && current[i] == l;
        assert(current[i].id == id);
    }
}

/// True when a poll shows a lobby with the id.
pub open spec fn shows(current: Seq<Lobby>, id: u64) -> bool {
    by_id(current).contains_key(id)
}

/// A lobby that two polls in a row miss is reported as deleted by the second, with
/// its last sighting, and not by the first; after that it is not known any more.
pub proof fn law_deleted_after_two_misses(
    roster: Roster,
    first: Seq<Lobby>,
    second: Seq<Lobby>,
    id: u64,
)
    requires
        roster.wf(),
        roster.prev.contains_key(id),
        !shows(first, id),
        !shows(second, id),
    ensures
        !roster.gone(first).contains_key(id),
        roster.polled(first).gone(second).contains_key(id),
        roster.polled(first).gone(second)[id] == roster.prev[id],
        !roster.polled(first).polled(second).known().contains_key(id),
{
}

/// Nothing is reported as deleted but what was present and then missed by two polls
/// in a row.
pub proof fn law_deleted_only_after_two_misses(
    roster: Roster,
    first: Seq<Lobby>,
    second: Seq<Lobby>,
    id: u64,
)
    requires
        roster.polled(first).gone(second).contains_key(id),
    ensures
        roster.prev.contains_key(id),
        !shows(first, id),
        !shows(second, id),
{
}

/// A lobby that one poll misses and the next one shows again was only a blip: it is
/// neither deleted nor created, and updated only if it has changed.
pub proof fn law_blip_is_forgiven(roster: Roster, first: Seq<Lobby>, second: Seq<Lobby>, lobby: Lobby)
    requires
        roster.wf(),
        roster.prev.contains_key(lobby.id),
        !shows(first, lobby.id),
        shows(second, lobby.id),
    ensures
        !roster.gone(first).contains_key(lobby.id),
        !roster.polled(first).gone(second).contains_key(lobby.id),
        roster.polled(first).kind_of(lobby) == (if roster.prev[lobby.id].is_same(lobby) {
            None::<EventKind>
        } else {
            Some(EventKind::Updated)
        }),
{
}

/// A deleted lobby that shows up again is created anew.
pub proof fn law_return_is_creation(roster: Roster, current: Seq<Lobby>, lobby: Lobby)
    requires
        roster.wf(),
        roster.gone(current).contains_key(lobby.id),
    ensures
        roster.polled(current).kind_of(lobby) == Some(EventKind::Created),
{
}

/// No two lobbies share an id.
pub open spec fn has_own_ids(lobbies: Seq<Lobby>) -> bool {
    forall|i: int, j: int|
        0 <= i < j < lobbies.len() ==> (#[trigger] lobbies[i]).id != (#[trigger] lobbies[j]).id
}

/// What a poll showed is known to the next one: the same lobbies again, each under
/// its own id, are no news.
pub proof fn law_unchanged_is_silent(roster: Roster, current: Seq<Lobby>)
    requires
        has_own_ids(current),
    ensures
        roster.polled(current).sightings(current) == Seq::<LobbyEvent>::empty(),
{
    let next = roster.polled(current);
    lemma_by_id(current);
    assert forall|i: int| 0 <= i < current.len() implies next.kind_of(#[trigger] current[i])
        == None::<EventKind> by {
        let l = by_id(current)[current[i].id];
        let j = choose|j: int| 0 <= j < current.len() && current[j] == l;
        assert(current[j].id == current[i].id);
        assert(i == j);
    }
    lemma_no_news(next, current);
}

proof fn lemma_no_news(roster: Roster, current: Seq<Lobby>)
    requires
        forall|i: int|
            0 <= i < current.len() ==> roster.kind_of(#[trigger] current[i]) == None::<EventKind>,
    ensures
        roster.sightings(current) == Seq::<LobbyEvent>::empty(),
    decreases current.len(),
{
    if current.len() > 0 {
        assert forall|i: int| 0 <= i < current.drop_last().len() implies roster.kind_of(
            #[trigger] current.drop_last()[i],
        ) == None::<EventKind> by {
            assert(current.drop_last()[i] == current[i]);
        }
        lemma_no_news(roster, current.drop_last());
        assert(current[current.len() - 1] == current.last());
    }
}

/// No poll reports a lobby both as shown and as deleted.
pub proof fn law_shown_is_not_deleted(roster: Roster, current: Seq<Lobby>, i: int)
    requires
        0 <= i < current.len(),
    ensures
        !roster.gone(current).contains_key(current[i].id),
{
    lemma_by_id(current);
}

proof fn lemma_tally_split(events: Seq<LobbyEvent>, n: int, kind: EventKind)
    requires
        0 <= n <= events.len(),
    ensures
        tally(events, kind) == tally(events.take(n), kind) + tally(events.skip(n), kind),
    decreases events.len(),
{
    if n == events.len() {
        assert(events.take(n) == events);
    } else {
        lemma_tally_split(events.drop_last(), n, kind);
        assert(events.drop_last().take(n) == events.take(n));
        assert(events.skip(n).drop_last() == events.drop_last().skip(n));
        assert(events.skip(n).last() == events.last());
    }
}

proof fn lemma_tally_of_deleted(events: Seq<LobbyEvent>)
    requires
        forall|i: int|
            0 <= i < events.len() ==> (#[trigger] events[i]).kind == EventKind::Deleted,
    ensures
        tally(events, EventKind::Deleted) == events.len(),
        tally(events, EventKind::Created) == 0,
        tally(events, EventKind::Updated) == 0,
    decreases events.len(),
{
    if events.len() > 0 {
        assert(events[events.len() - 1] == events.last());
        assert forall|i: int| 0 <= i < events.drop_last().len() implies (
        #[trigger] events.drop_last()[i]).kind == EventKind::Deleted by {
            assert(events.drop_last()[i] == events[i]);
        }
        lemma_tally_of_deleted(events.drop_last());
    }
}

proof fn lemma_tally_of_sightings(roster: Roster, current: Seq<Lobby>)
    ensures
        tally(roster.sightings(current), EventKind::Deleted) == 0,
        tally(roster.sightings(current), EventKind::Created) + tally(
            roster.sightings(current),
            EventKind::Updated,
        ) == roster.sightings(current).len(),
    decreases current.len(),
{
    if current.len() > 0 {
        let earlier = roster.sightings(current.drop_last());
        lemma_tally_of_sightings(roster, current.drop_last());
        match roster.kind_of(current.last()) {
            Some(kind) => {
                let e = LobbyEvent { kind, lobby: current.last() };
                assert(earlier.push(e).drop_last() == earlier);
            },
            None => {},
        }
    }
}

/// The three counts of a report add up to its events; the deleted ones are as many as
/// the lobbies that were missed for the second time.
pub proof fn law_report_counts(report: PollReport, roster: Roster, current: Seq<Lobby>)
    requires
        report.reports(roster, current),
    ensures
        report.created + report.updated == roster.sightings(current).len(),
        report.deleted == roster.gone(current).dom().len(),
        report.created + report.updated + report.deleted == report.events@.len(),
{
    let n: int = roster.sightings(current).len() as int;
    let tail = report.events@.skip(n);
    lemma_tally_split(report.events@, n, EventKind::Created);
    lemma_tally_split(report.events@, n, EventKind::Updated);
    lemma_tally_split(report.events@, n, EventKind::Deleted);
    lemma_tally_of_sightings(roster, current);
    assert forall|i: int| 0 <= i < tail.len() implies (#[trigger] tail[i]).kind
        == EventKind::Deleted by {
        assert(tail[i] == report.events@[n + i]);
    }
    lemma_tally_of_deleted(tail);
    let lobbies = tail.map_values(|e: LobbyEvent| e.lobby);
    assert(is_listing(roster.gone(current), lobbies));
    let keys = choose|keys: Seq<u64>| is_listing_by(roster.gone(current), keys, lobbies);
    keys.unique_seq_to_set();
    assert(lobbies.len() == keys.len());
}

/// While a search is in flight no other is sent before the deadline, and a search
/// that answered is followed by the next one no sooner than the poll interval.
pub proof fn law_searches_keep_their_distance(s: Schedule, sent: int, later: int)
    requires
        s.action(sent) == PollAction::Search,
        sent <= later,
    ensures
        later - sent <= SEARCH_DEADLINE ==> s.stepped(sent).action(later) == PollAction::Wait,
        s.stepped(sent).answered().action(later) == PollAction::Search <==> later - sent
            >= POLL_INTERVAL,
{
}

/// A search that hangs past the deadline is given up, and a new one is sent at the
/// next step, whenever that comes.
pub proof fn law_hung_search_is_sent_again(s: Schedule, now: int, later: int)
    requires
        s.pending,
        now - s.request_sent > SEARCH_DEADLINE,
        now <= later,
    ensures
        s.action(now) == PollAction::GiveUp,
        s.stepped(now).action(later) == PollAction::Search,
{
}

/// A lobby that the watcher knows is news exactly when a field but the id has changed since its
/// last sighting, whether the last poll showed it or missed it, and then it is an update. A
/// lobby that it does not know is created.
pub proof fn law_change_is_an_update(roster: Roster, lobby: Lobby)
    ensures
        roster.prev.contains_key(lobby.id) ==> {
            let seen = roster.prev[lobby.id];
            let changed = seen.name@ != lobby.name@ || seen.host@ != lobby.host@ || seen.protocol@
                != lobby.protocol@ || seen.members != lobby.members || seen.owner != lobby.owner;
            &&& roster.kind_of(lobby) == Some(EventKind::Updated) <==> changed
            &&& roster.kind_of(lobby) == None::<EventKind> <==> !changed
        },
        roster.absent.contains_key(lobby.id) && !roster.prev.contains_key(lobby.id) ==> {
            let seen = roster.absent[lobby.id];
            let changed = seen.name@ != lobby.name@ || seen.host@ != lobby.host@ || seen.protocol@
                != lobby.protocol@ || seen.members != lobby.members || seen.owner != lobby.owner;
            &&& roster.kind_of(lobby) == Some(EventKind::Updated) <==> changed
            &&& roster.kind_of(lobby) == None::<EventKind> <==> !changed
        },
        roster.kind_of(lobby) == Some(EventKind::Created) <==> !roster.prev.contains_key(lobby.id)
            && !roster.absent.contains_key(lobby.id),
        roster.kind_of(lobby) != Some(EventKind::Deleted),
{
}

/// The events of a poll are those of its parts, one part behind the other; a single lobby gives
/// one event if it is news, and none if not.
pub proof fn law_sightings_of_parts(roster: Roster, a: Seq<Lobby>, b: Seq<Lobby>, lobby: Lobby)
    ensures
        roster.sightings(a + b) == roster.sightings(a) + roster.sightings(b),
        roster.kind_of(lobby) is None ==> roster.sightings(seq![lobby]).len() == 0,
        roster.kind_of(lobby) matches Some(kind) ==> roster.sightings(seq![lobby]) == seq![
            LobbyEvent { kind, lobby },
        ],
    decreases b.len(),
{
    assert(seq![lobby].drop_last() == Seq::<Lobby>::empty());
    assert(seq![lobby].last() == lobby);
    reveal_with_fuel(Roster::sightings, 2);
    if b.len() == 0 {
        assert(a + b == a);
        assert(roster.sightings(a) + roster.sightings(b) == roster.sightings(a));
    } else {
        law_sightings_of_parts(roster, a, b.drop_last(), lobby);
        assert((a + b).drop_last() == a + b.drop_last());
        assert((a + b).last() == b.last());
        assert(roster.sightings(a + b) =~= roster.sightings(a) + roster.sightings(b));
    }
}

/// Counts add up over parts, and a single event counts for its own kind only.
pub proof fn law_tally_of_parts(
    a: Seq<LobbyEvent>,
    b: Seq<LobbyEvent>,
    event: LobbyEvent,
    kind: EventKind,
)
    ensures
        tally(a + b, kind) == tally(a, kind) + tally(b, kind),
        event.kind == kind ==> tally(seq![event], kind) == 1,
        event.kind != kind ==> tally(seq![event], kind) == 0,
{
    lemma_tally_split(a + b, a.len() as int, kind);
    assert((a + b).take(a.len() as int) == a);
    assert((a + b).skip(a.len() as int) == b);
    assert(seq![event].drop_last() == Seq::<LobbyEvent>::empty());
    reveal_with_fuel(tally, 2);
}

/// Of the lobbies of a poll that share an id the last one is kept.
pub proof fn law_last_of_an_id_is_kept(roster: Roster, current: Seq<Lobby>, i: int)
    requires
        0 <= i < current.len(),
        forall|j: int| i < j < current.len() ==> (#[trigger] current[j]).id != current[i].id,
    ensures
        roster.polled(current).prev.contains_key(current[i].id),
        roster.polled(current).prev[current[i].id] == current[i],
        by_id(current).contains_key(current[i].id),
        by_id(current)[current[i].id] == current[i],
    decreases current.len(),
{
    if i < current.len() - 1 {
        let rest = current.drop_last();
        assert forall|j: int| i < j < rest.len() implies (#[trigger] rest[j]).id != rest[i].id by {
            assert(rest[j] == current[j]);
        }
        law_last_of_an_id_is_kept(roster, rest, i);
        assert(current[current.len() - 1].id != current[i].id);
    }
}

/// A poll shows an id exactly when one of its lobbies has it.
pub proof fn law_shown_ids(current: Seq<Lobby>, id: u64)
    ensures
        shows(current, id) <==> (exists|i: int|
            0 <= i < current.len() && (#[trigger] current[i]).id == id),
        by_id(current).contains_key(id) ==> by_id(current)[id].id == id && current.contains(
            by_id(current)[id],
        ),
{
    lemma_by_id(current);
    if shows(current, id) {
        let l = by_id(current)[id];
        let i = choose|i: int| 0 <= i < current.len() && current[i] == l;
        assert(current[i].id == id);
    }
}

/// After a poll the absent lobbies are those that were present and that it does not show, as
/// they were last seen; and those that it reports as deleted are those that were absent and that
/// it does not show.
pub proof fn law_missed_are_absent_then_gone(roster: Roster, current: Seq<Lobby>, id: u64)
    ensures
        roster.polled(current).absent.contains_key(id) <==> roster.prev.contains_key(id) && !(
        exists|i: int| 0 <= i < current.len() && (#[trigger] current[i]).id == id),
        roster.polled(current).absent.contains_key(id) ==> roster.polled(current).absent[id]
            == roster.prev[id],
        roster.gone(current).contains_key(id) <==> roster.absent.contains_key(id) && !(exists|
            i: int,
        |
            0 <= i < current.len() && (#[trigger] current[i]).id == id),
        roster.gone(current).contains_key(id) ==> roster.gone(current)[id] == roster.absent[id],
{
    law_shown_ids(current, id);
}

/// A report holds the news of its poll and nothing else. First comes, in the order of the poll,
/// one event for each lobby that is created or updated, with the new sighting; then, each once,
/// the lobbies that are gone, with their last sighting. The counts are those of its events.
pub proof fn law_report_is_the_news(report: PollReport, roster: Roster, current: Seq<Lobby>)
    requires
        forall|id: u64| #[trigger] roster.absent.contains_key(id) ==> roster.absent[id].id == id,
        report.reports(roster, current),
    ensures
        ({
            let n = roster.sightings(current).len() as int;
            let events = report.events@;
            &&& n <= events.len()
            &&& events.subrange(0, n) == roster.sightings(current)
            &&& forall|i: int|
                n <= i < events.len() ==> (#[trigger] events[i]).kind == EventKind::Deleted
                    && roster.gone(current).contains_key(events[i].lobby.id) && roster.gone(
                    current,
                )[events[i].lobby.id] == events[i].lobby
            &&& forall|i: int, j: int|
                n <= i < j < events.len() ==> (#[trigger] events[i]).lobby.id != (
                #[trigger] events[j]).lobby.id
            &&& events.len() - n == roster.gone(current).dom().len()
        }),
        report.total == current.len(),
        report.created == tally(report.events@, EventKind::Created),
        report.updated == tally(report.events@, EventKind::Updated),
        report.deleted == tally(report.events@, EventKind::Deleted),
{
    let n: int = roster.sightings(current).len() as int;
    let events = report.events@;
    let gone = roster.gone(current);
    let lobbies = events.skip(n).map_values(|e: LobbyEvent| e.lobby);
    let keys = choose|keys: Seq<u64>| is_listing_by(gone, keys, lobbies);
    assert(is_listing_by(gone, keys, lobbies));
    keys.unique_seq_to_set();
    assert(lobbies.len() == keys.len());
    assert forall|i: int| n <= i < events.len() implies (#[trigger] events[i]).lobby.id == keys[i
        - n] && gone.contains_key(keys[i - n]) && gone[keys[i - n]] == events[i].lobby by {
        assert(lobbies[i - n] == events[i].lobby);
        assert(keys.to_set().contains(keys[i - n]));
    }
}

/// Every lobby of a poll that is news has its event in the report, and every event but a
/// deletion is news of a lobby of the poll.
pub proof fn law_no_news_is_lost(report: PollReport, roster: Roster, current: Seq<Lobby>)
    requires
        report.reports(roster, current),
    ensures
        forall|i: int|
            0 <= i < current.len() && roster.kind_of(#[trigger] current[i]) is Some
                ==> report.events@.contains(
                LobbyEvent { kind: roster.kind_of(current[i])->0, lobby: current[i] },
            ),
        forall|i: int|
            0 <= i < report.events@.len() && (#[trigger] report.events@[i]).kind
                != EventKind::Deleted ==> current.contains(report.events@[i].lobby)
                && roster.kind_of(report.events@[i].lobby) == Some(report.events@[i].kind),
{
    let seen = roster.sightings(current);
    let events = report.events@;
    lemma_sightings(roster, current);
    assert forall|i: int|
        0 <= i < current.len() && roster.kind_of(#[trigger] current[i]) is Some implies events.contains(
        LobbyEvent { kind: roster.kind_of(current[i])->0, lobby: current[i] },
    ) by {
        let e = LobbyEvent { kind: roster.kind_of(current[i])->0, lobby: current[i] };
        let k = choose|k: int| 0 <= k < seen.len() && seen[k] == e;
        assert(events.take(seen.len() as int)[k] == events[k]);
    }
    assert forall|i: int|
        0 <= i < events.len() && (#[trigger] events[i]).kind
            != EventKind::Deleted implies current.contains(events[i].lobby) && roster.kind_of(
        events[i].lobby,
    ) == Some(events[i].kind) by {
        assert(i < seen.len());
        assert(events.take(seen.len() as int)[i] == events[i]);
        assert(seen[i] == events[i]);
    }
}

proof fn lemma_sightings(roster: Roster, current: Seq<Lobby>)
    ensures
        forall|i: int|
            0 <= i < current.len() && roster.kind_of(#[trigger] current[i]) is Some
                ==> roster.sightings(current).contains(
                LobbyEvent { kind: roster.kind_of(current[i])->0, lobby: current[i] },
            ),
        forall|k: int|
            0 <= k < roster.sightings(current).len() ==> current.contains(
                (#[trigger] roster.sightings(current)[k]).lobby,
            ) && roster.kind_of(roster.sightings(current)[k].lobby) == Some(
                roster.sightings(current)[k].kind,
            ),
    decreases current.len(),
{
    if current.len() > 0 {
        let rest = current.drop_last();
        let (seen, earlier) = (roster.sightings(current), roster.sightings(rest));
        lemma_sightings(roster, rest);
        assert(earlier.len() <= seen.len() && earlier == seen.take(earlier.len() as int));
        assert forall|i: int|
            0 <= i < current.len() && roster.kind_of(#[trigger] current[i]) is Some implies seen.contains(
            LobbyEvent { kind: roster.kind_of(current[i])->0, lobby: current[i] },
        ) by {
            let e = LobbyEvent { kind: roster.kind_of(current[i])->0, lobby: current[i] };
            if i < rest.len() {
                assert(rest[i] == current[i]);
                let k = choose|k: int| 0 <= k < earlier.len() && earlier[k] == e;
                assert(seen[k] == e);
            } else {
                assert(seen[seen.len() - 1] == e);
            }
        }
        assert forall|k: int| 0 <= k < seen.len() implies current.contains(
            (#[trigger] seen[k]).lobby,
        ) && roster.kind_of(seen[k].lobby) == Some(seen[k].kind) by {
            if k < earlier.len() {
                assert(seen[k] == earlier[k]);
                let j = choose|j: int| 0 <= j < rest.len() && rest[j] == earlier[k].lobby;
                assert(current[j] == rest[j]);
            } else {
                assert(current[current.len() - 1] == seen[k].lobby);
            }
        }
    }
}

/// What a poll leaves behind: its lobbies are present, those that it missed for the first time
/// are absent, its time is noted, and nothing else changes.
pub proof fn law_process_poll(
    state: &mut WatcherState,
    current: Vec<Lobby>,
    now: u128,
    report: PollReport,
    id: u64,
)
    requires
        call_ensures(process_poll, (state, current, now), report),
    ensures
        final(state).prev@.contains_key(id) <==> (exists|i: int|
            0 <= i < current@.len() && (#[trigger] current@[i]).id == id),
        final(state).absent@.contains_key(id) <==> {
            &&& old(state).prev@.contains_key(id)
            &&& !final(state).prev@.contains_key(id)
        },
        final(state).absent@.contains_key(id) ==> final(state).absent@[id] == old(state).prev@[id],
        final(state).prev@ == by_id(current@),
        final(state).last_poll == now,
        final(state).poll_index == old(state).poll_index,
        final(state).pending == old(state).pending,
        final(state).request_sent == old(state).request_sent,
        final(state).next_poll == old(state).next_poll,
        final(state).lobby_log == old(state).lobby_log,
        report.poll == old(state).poll_index,
        report.reports(
            Roster { prev: old(state).prev@, absent: old(state).absent@ },
            current@,
        ),
{
    law_shown_ids(current@, id);
    assert(final(state).roster() == old(state).roster().polled(current@));
}

/// A failed search changes nothing but that none is in flight any more. One that found lobbies
/// is the next poll, and does to the roster what the poll does; neither moves the next search.
pub proof fn law_search_answered(
    state: &mut WatcherState,
    found: Option<Vec<Lobby>>,
    now: u128,
    r: Option<PollReport>,
)
    requires
        call_ensures(WatcherState::search_answered, (state, found, now), r),
    ensures
        !final(state).pending,
        final(state).request_sent == old(state).request_sent,
        final(state).next_poll == old(state).next_poll,
        final(state).lobby_log == old(state).lobby_log,
        r is None <==> found is None,
        found is None ==> {
            &&& final(state).prev@ == old(state).prev@
            &&& final(state).absent@ == old(state).absent@
            &&& final(state).poll_index == old(state).poll_index
            &&& final(state).last_poll == old(state).last_poll
        },
        found matches Some(current) ==> {
            let roster = Roster { prev: old(state).prev@, absent: old(state).absent@ };
            &&& final(state).prev@ == roster.polled(current@).prev
            &&& final(state).absent@ == roster.polled(current@).absent
            &&& final(state).poll_index == old(state).poll_index + 1
            &&& final(state).last_poll == now
            &&& r->0.poll == final(state).poll_index
            &&& r->0.reports(roster, current@)
        },
{
    let roster = old(state).roster();
    assert(roster == Roster { prev: old(state).prev@, absent: old(state).absent@ });
    assert(final(state).roster() == Roster {
        prev: final(state).prev@,
        absent: final(state).absent@,
    });
    assert(final(state).schedule() == old(state).schedule().answered());
}

/// With no search in flight one is due from the appointed time on, however late it is, and not
/// before. With one in flight nothing is due until more than 20 s have passed since it was sent,
/// and from then on it is given up.
pub proof fn law_what_is_due(s: Schedule, now: int)
    ensures
        !s.pending && now >= s.next_poll ==> s.action(now) == PollAction::Search,
        !s.pending && now < s.next_poll ==> s.action(now) == PollAction::Wait,
        s.pending && now - s.request_sent > 20_000_000_000 ==> s.action(now) == PollAction::GiveUp,
        s.pending && now - s.request_sent <= 20_000_000_000 ==> s.action(now) == PollAction::Wait,
{
}

/// A watcher knows nothing at its start, and its first search is due from then on.
pub proof fn law_new_watcher(lobby_log: String, start: u128, r: WatcherState, t: int)
    requires
        call_ensures(WatcherState::new, (lobby_log, start), r),
    ensures
        t >= start ==> r.schedule().action(t) == PollAction::Search,
        !r.pending,
        r.next_poll == start,
        r.last_poll == start,
        r.poll_index == 0,
        r.lobby_log@ == lobby_log@,
        forall|id: u64| !(#[trigger] r.prev@.contains_key(id)),
        forall|id: u64| !(#[trigger] r.absent@.contains_key(id)),
{
}

/// A step of the main loop. A search is sent exactly when none is in flight and its time has
/// come, is noted with the time, and the next one is set for 15 s later. A search in flight for
/// more than 20 s is given up, and the next one is due at once. Otherwise nothing changes.
pub proof fn law_poll_step(state: &mut WatcherState, now: u128, r: PollAction)
    requires
        call_ensures(WatcherState::poll_step, (state, now), r),
    ensures
        r == PollAction::Search <==> !old(state).pending && now >= old(state).next_poll,
        r == PollAction::GiveUp <==> old(state).pending && now - old(state).request_sent
            > 20_000_000_000,
        r == PollAction::Search ==> {
            &&& final(state).pending
            &&& final(state).request_sent == now
            &&& final(state).next_poll - now == 15_000_000_000
        },
        r == PollAction::GiveUp ==> {
            &&& !final(state).pending
            &&& final(state).request_sent == old(state).request_sent
            &&& final(state).next_poll == now
        },
        r == PollAction::Wait ==> {
            &&& final(state).pending == old(state).pending
            &&& final(state).request_sent == old(state).request_sent
            &&& final(state).next_poll == old(state).next_poll
        },
        final(state).prev@ == old(state).prev@,
        final(state).absent@ == old(state).absent@,
        final(state).poll_index == old(state).poll_index,
        final(state).last_poll == old(state).last_poll,
        final(state).lobby_log == old(state).lobby_log,
{
    assert(final(state).schedule() == old(state).schedule().stepped(now as int));
    assert(final(state).roster() == old(state).roster());
}

/// The ids of a map are listed each once, and no other id is.
pub proof fn law_ids_of(m: &HashMap<u64, Lobby>, r: Vec<u64>, id: u64)
    requires
        call_ensures(ids_of, (m,), r),
    ensures
        m@.contains_key(id) <==> (exists|i: int| 0 <= i < r@.len() && #[trigger] r@[i] == id),
        forall|i: int, j: int| 0 <= i < j < r@.len() ==> #[trigger] r@[i] != #[trigger] r@[j],
{
    assert(r@.to_set().contains(id) <==> m@.dom().contains(id));
    assert(r@.to_set().contains(id) <==> r@.contains(id));
}

} // verus!
