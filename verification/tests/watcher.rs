use lobby_watcher::lobby::Lobby;
use lobby_watcher::log::{EventKind, LobbyEvent};
use lobby_watcher::watcher::{
    process_poll, PollAction, PollReport, WatcherState, POLL_INTERVAL, SEARCH_DEADLINE,
};

fn lobby(id: u64, name: &str) -> Lobby {
    Lobby::read(id, Some(name.into()), Some("host".into()), None, 2, 7)
}

fn events(report: &PollReport) -> Vec<(EventKind, u64)> {
    report.events.iter().map(|e: &LobbyEvent| (e.kind, e.lobby.id)).collect()
}

fn counts(report: &PollReport) -> (usize, usize, usize, usize) {
    (report.total, report.created, report.updated, report.deleted)
}

#[test]
fn lobby_read_fills_missing_entries() {
    let l = Lobby::read(4, None, Some("u".into()), None, 3, 9);
    assert_eq!((l.id, l.members, l.owner), (4, 3, 9));
    assert_eq!(l.name, "");
    assert_eq!(l.host, "u");
    assert_eq!(l.protocol, "");
}

#[test]
fn same_ignores_the_id_and_nothing_else() {
    let l = lobby(1, "a");
    let mut other = l.clone();
    other.id = 2;
    assert!(l.same(&other));
    let mut other = l.clone();
    other.name.push('x');
    assert!(!l.same(&other));
    let mut other = l.clone();
    other.host.push('x');
    assert!(!l.same(&other));
    let mut other = l.clone();
    other.protocol.push('x');
    assert!(!l.same(&other));
    let mut other = l.clone();
    other.members += 1;
    assert!(!l.same(&other));
    let mut other = l.clone();
    other.owner += 1;
    assert!(!l.same(&other));
}

#[test]
fn new_ids_are_created_in_order() {
    let mut st = WatcherState::new("log".into(), 3);
    let report = process_poll(&mut st, vec![lobby(2, "b"), lobby(1, "a")], 44);
    assert_eq!(events(&report), vec![(EventKind::Created, 2), (EventKind::Created, 1)]);
    assert_eq!(counts(&report), (2, 2, 0, 0));
    assert_eq!(st.last_poll, 44);
    assert_eq!(st.prev.len(), 2);
    assert_eq!(st.lobby_log, "log");
}

#[test]
fn same_lobbies_again_are_no_news() {
    let mut st = WatcherState::new(String::new(), 0);
    process_poll(&mut st, vec![lobby(1, "a"), lobby(2, "b")], 1);
    let report = process_poll(&mut st, vec![lobby(2, "b"), lobby(1, "a")], 2);
    assert!(report.events.is_empty());
    assert_eq!(counts(&report), (2, 0, 0, 0));
}

#[test]
fn changed_lobby_is_updated() {
    let mut st = WatcherState::new(String::new(), 0);
    process_poll(&mut st, vec![lobby(1, "a"), lobby(2, "b")], 1);
    let report = process_poll(&mut st, vec![lobby(1, "A"), lobby(2, "b")], 2);
    assert_eq!(events(&report), vec![(EventKind::Updated, 1)]);
    assert_eq!(report.events[0].lobby.name, "A");
    assert_eq!(counts(&report), (2, 0, 1, 0));
}

#[test]
fn deleted_after_two_misses() {
    let mut st = WatcherState::new(String::new(), 0);
    process_poll(&mut st, vec![lobby(1, "a"), lobby(2, "b")], 1);
    let report = process_poll(&mut st, vec![lobby(2, "b")], 2);
    assert!(report.events.is_empty());
    let report = process_poll(&mut st, vec![lobby(2, "b")], 3);
    assert_eq!(events(&report), vec![(EventKind::Deleted, 1)]);
    assert_eq!(report.events[0].lobby.name, "a");
    assert_eq!(counts(&report), (1, 0, 0, 1));
    let report = process_poll(&mut st, vec![lobby(2, "b")], 4);
    assert!(report.events.is_empty());
    let report = process_poll(&mut st, vec![lobby(1, "a"), lobby(2, "b")], 5);
    assert_eq!(events(&report), vec![(EventKind::Created, 1)]);
}

#[test]
fn blip_is_forgiven() {
    let mut st = WatcherState::new(String::new(), 0);
    process_poll(&mut st, vec![lobby(1, "a"), lobby(2, "b")], 1);
    assert!(process_poll(&mut st, vec![], 2).events.is_empty());
    let report = process_poll(&mut st, vec![lobby(1, "a"), lobby(2, "B")], 3);
    assert_eq!(events(&report), vec![(EventKind::Updated, 2)]);
    assert!(process_poll(&mut st, vec![], 4).events.is_empty());
    let mut gone = events(&process_poll(&mut st, vec![], 5));
    gone.sort_by_key(|e| e.1);
    assert_eq!(gone, vec![(EventKind::Deleted, 1), (EventKind::Deleted, 2)]);
}

#[test]
fn later_of_two_with_one_id_counts() {
    let mut st = WatcherState::new(String::new(), 0);
    let report = process_poll(&mut st, vec![lobby(1, "a"), lobby(1, "b")], 1);
    assert_eq!(events(&report), vec![(EventKind::Created, 1), (EventKind::Created, 1)]);
    assert_eq!(st.prev[&1].name, "b");
    assert_eq!(st.prev.len(), 1);
}

#[test]
fn first_search_is_due_at_once() {
    let mut st = WatcherState::new(String::new(), 1000);
    assert_eq!(st.poll_step(1000), PollAction::Search);
    assert!(st.pending);
    assert_eq!(st.request_sent, 1000);
    assert_eq!(st.next_poll, 1000 + POLL_INTERVAL);
}

#[test]
fn searches_are_an_interval_apart() {
    let mut st = WatcherState::new(String::new(), 0);
    assert_eq!(st.poll_step(0), PollAction::Search);
    assert_eq!(st.poll_step(POLL_INTERVAL), PollAction::Wait);
    assert!(st.search_answered(Some(vec![lobby(1, "a")]), 5).is_some());
    assert_eq!(st.poll_step(POLL_INTERVAL - 1), PollAction::Wait);
    assert_eq!(st.poll_step(POLL_INTERVAL), PollAction::Search);
    assert_eq!(POLL_INTERVAL, 15 * 1_000_000_000);
    assert_eq!(SEARCH_DEADLINE, 20 * 1_000_000_000);
}

#[test]
fn hung_search_is_given_up_and_sent_again() {
    let mut st = WatcherState::new(String::new(), 0);
    assert_eq!(st.poll_step(0), PollAction::Search);
    assert_eq!(st.poll_step(SEARCH_DEADLINE), PollAction::Wait);
    assert_eq!(st.poll_step(SEARCH_DEADLINE + 1), PollAction::GiveUp);
    assert_eq!(st.poll_step(SEARCH_DEADLINE + 1), PollAction::Search);
}

#[test]
fn failed_search_is_no_poll() {
    let mut st = WatcherState::new(String::new(), 0);
    st.poll_step(0);
    let report = st.search_answered(Some(vec![lobby(1, "a")]), 8).unwrap();
    assert_eq!(report.poll, 1);
    assert_eq!((st.poll_index, st.last_poll, st.pending), (1, 8, false));
    st.poll_step(POLL_INTERVAL);
    assert!(st.search_answered(None, 9).is_none());
    assert_eq!((st.poll_index, st.last_poll, st.pending), (1, 8, false));
    assert_eq!(st.prev.len(), 1);
    assert!(st.absent.is_empty());
}
