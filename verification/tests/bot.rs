use std::collections::HashMap;

use lobby_watcher::card::is_lobby_card_title;
use lobby_watcher::embed::{build_mm_embed, join_link, mm_embed};
use lobby_watcher::lobby::Lobby;
use lobby_watcher::snapshot::{lobby_snapshot, lobby_snapshot_at};
use lobby_watcher::watcher::WatcherState;

fn lobby(name: &str, id: u64, owner: u64) -> Lobby {
    Lobby {
        id,
        name: name.into(),
        host: "host".into(),
        protocol: "0.2.9".into(),
        members: 1,
        owner,
    }
}

fn state_with(lobbies: Vec<Lobby>) -> WatcherState {
    let mut prev = HashMap::new();
    for l in lobbies {
        prev.insert(l.id, l);
    }
    WatcherState {
        prev,
        absent: HashMap::new(),
        poll_index: 12,
        pending: false,
        request_sent: 0,
        next_poll: 0,
        last_poll: 0,
        lobby_log: String::new(),
    }
}

#[test]
fn join_link_points_at_mm_service() {
    let l = lobby("hi", 109775244078428410, 76561198027378405);
    assert_eq!(
        join_link(&l),
        "https://mm.b.hero.rehab/joinlobby/357190/109775244078428410/76561198027378405"
    );
}

#[test]
fn join_links_differ_with_id_and_owner() {
    assert_ne!(join_link(&lobby("a", 12, 3)), join_link(&lobby("a", 1, 23)));
    assert_ne!(join_link(&lobby("a", 1, 2)), join_link(&lobby("a", 1, 3)));
    assert_eq!(join_link(&lobby("a", 0, u64::MAX)), join_link(&lobby("b", 0, u64::MAX)));
}

#[test]
fn embed_has_one_field_per_lobby() {
    let lobbies = vec![lobby("a", 1, 2), lobby("b", 3, 4)];
    let e = build_mm_embed(&lobbies, 7, 1_700_000_000);
    let json = serde_json::to_value(&e).unwrap();
    assert_eq!(json["title"], "Open Timestone Lobbies - 2");
    assert!(json["description"]
        .as_str()
        .unwrap()
        .contains("<t:1700000000:R>"));
    assert_eq!(json["fields"].as_array().unwrap().len(), 2);
    assert!(json["fields"][0]["value"]
        .as_str()
        .unwrap()
        .contains("https://mm.b.hero.rehab/joinlobby/"));
}

#[test]
fn embed_shows_empty_state() {
    let e = build_mm_embed(&[], 0, 1_700_000_000);
    let json = serde_json::to_value(&e).unwrap();
    assert!(json["description"]
        .as_str()
        .unwrap()
        .contains("No open lobbies"));
    let fields = json
        .get("fields")
        .and_then(|f| f.as_array())
        .map(|a| a.len())
        .unwrap_or(0);
    assert_eq!(fields, 0);
}

#[test]
fn embed_caps_at_25_lobbies() {
    let lobbies: Vec<Lobby> = (0..30).map(|i| lobby(&format!("l{i}"), i, i + 1)).collect();
    let e = build_mm_embed(&lobbies, 1, 1_700_000_000);
    let json = serde_json::to_value(&e).unwrap();
    let fields = json["fields"].as_array().unwrap();
    assert_eq!(fields.len(), 26);
    assert!(fields[25]["name"].as_str().unwrap().contains("+5 more"));
}

#[test]
fn embed_uses_native_timestamp_in_description() {
    let e = build_mm_embed(&[], 3, 1_700_000_000);
    let json = serde_json::to_value(&e).unwrap();
    assert_eq!(json["footer"]["text"].as_str().unwrap(), "poll #3");
    let desc = json["description"].as_str().unwrap();
    assert!(desc.contains("<t:1700000000:R>"), "{desc}");
    assert!(desc.contains("No open lobbies"), "{desc}");
}

#[test]
fn embed_on_the_wire_is_complete() {
    let e = build_mm_embed(&[lobby("Party", 5, 6)], 9, 77);
    let json = serde_json::to_value(&e).unwrap();
    assert_eq!(json["title"], "Open Timestone Lobbies - 1");
    assert_eq!(json["color"], 0x9b59b6);
    assert_eq!(json["description"], "Updated <t:77:R>");
    assert_eq!(json["footer"]["text"], "poll #9");
    assert_eq!(json["fields"].as_array().unwrap().len(), 1);
    assert_eq!(json["fields"][0]["name"], "Party - host");
    assert_eq!(
        json["fields"][0]["value"],
        "protocol 0.2.9 • 1/8 players\n[Join lobby](https://mm.b.hero.rehab/joinlobby/357190/5/6)"
    );
    assert_eq!(json["fields"][0]["inline"], false);
}

#[test]
fn embed_text_at_the_limit() {
    let lobbies: Vec<Lobby> = (0..25).map(|i| lobby("n", i, i)).collect();
    assert_eq!(mm_embed(&lobbies, 1, 2).fields.len(), 25);
    let lobbies: Vec<Lobby> = (0..26).map(|i| lobby("n", i, i)).collect();
    let e = mm_embed(&lobbies, 1, 2);
    assert_eq!(e.title, "Open Timestone Lobbies - 26");
    assert_eq!(e.fields.len(), 26);
    assert_eq!(e.fields[25].name, "+1 more");
    assert_eq!(e.fields[25].value, "Showing the first 25 lobbies.");
    for (i, l) in lobbies.iter().take(25).enumerate() {
        assert!(e.fields[i].value.contains(&join_link(l)));
    }
    let none = mm_embed(&[], 0, 5);
    assert_eq!(none.description, "No open lobbies right now. Try again in a bit.\nUpdated <t:5:R>");
    assert_eq!(none.footer, "poll #0");
}

#[test]
fn every_embed_title_is_a_card_title() {
    for n in 0..40u64 {
        let lobbies: Vec<Lobby> = (0..n).map(|i| lobby("n", i, i)).collect();
        assert!(is_lobby_card_title(&mm_embed(&lobbies, 1, 1).title));
    }
}

#[test]
fn lobby_snapshot_sorts_busiest_first() {
    let mut prev = HashMap::new();
    for (id, members) in [(3u64, 1usize), (1, 5), (2, 2)] {
        prev.insert(
            id,
            Lobby {
                id,
                name: format!("l{id}"),
                host: "host".into(),
                protocol: "0.2.9".into(),
                members,
                owner: 76561198027378405,
            },
        );
    }
    let st = WatcherState {
        prev,
        absent: std::collections::HashMap::new(),
        poll_index: 12,
        pending: false,
        request_sent: 0,
        next_poll: 0,
        last_poll: 0,
        lobby_log: String::new(),
    };
    let (lobbies, poll_index, _updated_ago) = lobby_snapshot(&st, 0);
    assert_eq!(poll_index, 12);
    let members: Vec<usize> = lobbies.iter().map(|l| l.members).collect();
    assert_eq!(members, vec![5, 2, 1]);
}

#[test]
fn snapshot_lists_every_lobby_once() {
    let mut lobbies: Vec<Lobby> = (0..20).map(|i| lobby("n", i, i)).collect();
    for (i, l) in lobbies.iter_mut().enumerate() {
        l.members = i % 4;
    }
    let (shown, _, _) = lobby_snapshot_at(&state_with(lobbies), 0, 0);
    let mut ids: Vec<u64> = shown.iter().map(|l| l.id).collect();
    ids.sort();
    assert_eq!(ids, (0..20).collect::<Vec<u64>>());
    for pair in shown.windows(2) {
        assert!(pair[0].members >= pair[1].members);
    }
}

#[test]
fn snapshot_dates_the_last_poll() {
    let mut st = state_with(vec![]);
    st.last_poll = 5_000_000_000;
    assert_eq!(lobby_snapshot_at(&st, 5_000_000_000, 1000).2, 1000);
    assert_eq!(lobby_snapshot_at(&st, 6_999_999_999, 1000).2, 999);
    assert_eq!(lobby_snapshot_at(&st, 7_000_000_000, 1000).2, 998);
    assert_eq!(lobby_snapshot_at(&st, u128::MAX, 1000).2, 0);
    assert_eq!(lobby_snapshot_at(&st, 0, 1000).2, 1000);
}

#[test]
fn snapshot_reads_the_wall_clock() {
    let shown = lobby_snapshot(&state_with(vec![]), 0).2;
    assert!(shown > 1_600_000_000);
}
