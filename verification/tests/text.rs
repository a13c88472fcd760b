use lobby_watcher::calendar::{civil_from_days, utc_from_epoch};
use lobby_watcher::clock::{unix_now, unix_time, utc_now};
use lobby_watcher::lobby::Lobby;
use lobby_watcher::log::{
    event_row, event_row_now, join_log_line, lobby_log_line, start_row, EventKind,
};
use lobby_watcher::settings::{
    channel_setting, lobby_log_path, registration, ChannelSetting, Registration,
};
use lobby_watcher::text::{append_decimal, append_padded, is_blank, parse_id, ParseIdError};

#[test]
fn utc_from_epoch_is_rfc3339_utc() {
    assert_eq!(utc_from_epoch(0), "1970-01-01T00:00:00Z");
    assert_eq!(utc_from_epoch(1_709_210_096), "2024-02-29T12:34:56Z");
    assert_eq!(utc_from_epoch(4_107_456_000), "2100-02-28T00:00:00Z");
    assert_eq!(
        utc_from_epoch(4_107_456_000 + 86_400),
        "2100-03-01T00:00:00Z"
    );
}

#[test]
fn utc_at_the_edges() {
    assert_eq!(utc_from_epoch(86_399), "1970-01-01T23:59:59Z");
    assert_eq!(utc_from_epoch(951_782_400), "2000-02-29T00:00:00Z");
    assert_eq!(utc_from_epoch(253_402_300_799), "9999-12-31T23:59:59Z");
    assert_eq!(utc_from_epoch(253_402_300_800), "10000-01-01T00:00:00Z");
    assert_eq!(utc_from_epoch(u64::MAX), "584554051223-11-09T07:00:15Z");
    assert_ne!(utc_from_epoch(60), utc_from_epoch(61));
}

#[test]
fn days_before_the_epoch() {
    assert_eq!(civil_from_days(0), (1970, 1, 1));
    assert_eq!(civil_from_days(-1), (1969, 12, 31));
    assert_eq!(civil_from_days(-719_468), (0, 3, 1));
    assert_eq!(civil_from_days(-719_469), (0, 2, 29));
    assert_eq!(civil_from_days(-719_528 - 1), (-1, 12, 31));
}

#[test]
fn days_follow_one_another() {
    let mut last = civil_from_days(-800_000);
    for z in -799_999..800_000i64 {
        let date = civil_from_days(z);
        assert!(
            date == (last.0, last.1, last.2 + 1)
                || (date == (last.0, last.1 + 1, 1) && last.2 >= 28)
                || (date == (last.0 + 1, 1, 1) && (last.1, last.2) == (12, 31))
        );
        last = date;
    }
}

fn party() -> Lobby {
    Lobby {
        id: 109775999888744469,
        name: "Party \"Up\"".to_string(),
        host: "John\tDoe".to_string(),
        protocol: "1".to_string(),
        members: 2,
        owner: 76561198000000000,
    }
}

#[test]
fn log_line_is_one_escaped_row() {
    let lobby = Lobby {
        id: 109775999888744469,
        name: "Party \"Up\"".to_string(),
        host: "John\tDoe".to_string(),
        protocol: "1".to_string(),
        members: 2,
        owner: 76561198000000000,
    };
    assert_eq!(
        lobby_log_line("2026-09-08T19:40:01Z", "created", &lobby),
        "2026-09-08T19:40:01Z created id=109775999888744469 \
         name=\"Party \\\"Up\\\"\" host=\"John\\tDoe\" \
         protocol=\"1\" members=2 owner=76561198000000000"
    );
}

#[test]
fn no_player_text_breaks_the_row() {
    for text in ["a\nb", "a\r\nb", "\"", "\\\"", "\\", "\t", "", "é\u{2028}\u{301}'", "\u{0}\u{1b}\u{7f}", "\u{85}\u{9f}\u{2029}"] {
        let mut lobby = party();
        lobby.name = text.to_string();
        lobby.host = text.to_string();
        lobby.protocol = text.to_string();
        let row = event_row("now", EventKind::Deleted, &lobby);
        assert!(!row[..row.len() - 1].chars().any(char::is_control));
        assert!(!row.contains(['\u{2028}', '\u{2029}']));
        assert_eq!(row.matches('\n').count(), 1);
        assert!(row.ends_with('\n'));
        assert!(!row.contains('\r') && !row.contains('\t'));
        assert_eq!(
            row,
            format!(
                "now deleted id=109775999888744469 name={text:?} host={text:?} \
                 protocol={text:?} members=2 owner=76561198000000000\n"
            )
        );
    }
}

#[test]
fn no_control_character_reaches_the_row() {
    for c in (0..0x20u32).chain(0x7f..=0x9f).chain([0x2028, 0x2029]).filter_map(char::from_u32) {
        let mut lobby = party();
        lobby.host = format!("x{c}y");
        let line = lobby_log_line("t", "e", &lobby);
        assert!(!line.contains(c), "{line}");
    }
}

#[test]
fn printable_ascii_is_kept_or_escaped() {
    for c in (b' '..=b'~').map(char::from).filter(|c| *c != '\'').chain(['\n', '\r', '\t']) {
        let mut lobby = party();
        lobby.name = format!("a{c}b{c}");
        let shown = match c {
            '\n' => "\\n".to_string(),
            '\r' => "\\r".to_string(),
            '\t' => "\\t".to_string(),
            '"' | '\\' => format!("\\{c}"),
            _ => c.to_string(),
        };
        let line = lobby_log_line("t", "e", &lobby);
        assert!(line.contains(&format!(" name=\"a{shown}b{shown}\" host=")), "{line}");
    }
}

#[test]
fn lines_tell_lobbies_apart() {
    let texts = ["a", "b", "a\" host=\"b", "\\", "\\\"", "\n", "\\n", "é", "\u{301}", "\\u{301}", "'", ""];
    let mut lines = Vec::new();
    for name in texts {
        for host in texts {
            for protocol in texts {
                let mut lobby = party();
                lobby.name = name.to_string();
                lobby.host = host.to_string();
                lobby.protocol = protocol.to_string();
                lines.push(lobby_log_line("t", "e", &lobby));
            }
        }
    }
    for change in 0..3u32 {
        let mut lobby = party();
        match change {
            0 => lobby.id += 1,
            1 => lobby.members += 1,
            _ => lobby.owner += 1,
        }
        lines.push(lobby_log_line("t", "e", &lobby));
    }
    lines.push(lobby_log_line("t", "e", &party()));
    let count = lines.len();
    lines.sort();
    lines.dedup();
    assert_eq!(lines.len(), count);
    assert_eq!(lobby_log_line("t", "e", &party()), lobby_log_line("t", "e", &party()));
}

#[test]
fn line_is_joined_from_given_texts() {
    assert_eq!(
        join_log_line("t", "e", &party(), "N", "H", "P"),
        "t e id=109775999888744469 name=N host=H protocol=P members=2 owner=76561198000000000"
    );
}

#[test]
fn rows_of_now_and_of_the_start() {
    let row = event_row_now(EventKind::Created, &party());
    assert_eq!(&row[20..37], " created id=10977");
    assert_eq!(row.matches('\n').count(), 1);
    assert_eq!(start_row("T", 42), "T start watcher pid=42\n");
}

#[test]
fn event_kinds() {
    assert_eq!(EventKind::Created.name(), "created");
    assert_eq!(EventKind::Updated.name(), "updated");
    assert_eq!(EventKind::Deleted.name(), "deleted");
    assert_eq!(EventKind::Updated.message(), "Timestone lobby updated");
    assert!(EventKind::Created.is_logged());
    assert!(!EventKind::Updated.is_logged());
    assert!(EventKind::Deleted.is_logged());
}

#[test]
fn clock_is_read() {
    assert_eq!(unix_time(Some(17)), 17);
    assert_eq!(unix_time(None), 0);
    let before = std::time::SystemTime::now()
        .duration_since(std::time::UNIX_EPOCH)
        .unwrap()
        .as_secs();
    let shown = unix_now();
    assert!(shown >= before && shown < before + 20);
    assert_eq!(utc_now().len(), 20);
}

#[test]
fn decimals() {
    for n in [0, 9, 10, 99, 100, 12345, u64::MAX] {
        let mut out = String::from("x");
        append_decimal(&mut out, n);
        assert_eq!(out, format!("x{n}"));
        assert_eq!(parse_id(&out[1..]), Ok(n));
        for width in [0usize, 1, 2, 4, 25] {
            let mut out = String::new();
            append_padded(&mut out, n, width);
            assert_eq!(out, format!("{n:0width$}"));
        }
    }
}

#[test]
fn ids_are_read_as_std_reads_them() {
    assert_eq!(parse_id(""), Err(ParseIdError::Empty));
    assert_eq!(parse_id("+"), Err(ParseIdError::InvalidDigit));
    assert_eq!(parse_id("18446744073709551616"), Err(ParseIdError::TooLarge));
    for text in [
        "", "+", "-", "-1", "+5", "++5", "007", " 7", "7 ", "1_0", "12a", "٣", "0", "a",
        "18446744073709551615", "18446744073709551616", "99999999999999999999", "x1",
        "99999999999999999999x", "1844674407370955161x", "+18446744073709551615",
        "00000000000000000000000000000000000000001", "18446744073709551615x", "+0",
    ] {
        let got = parse_id(text);
        match text.parse::<u64>() {
            Ok(n) => assert_eq!(got, Ok(n), "{text}"),
            Err(e) => assert_eq!(got.unwrap_err().message(), e.to_string(), "{text}"),
        }
    }
}

#[test]
fn blank_is_what_trims_to_nothing() {
    for c in (0..=0x10ffffu32).filter_map(char::from_u32) {
        let mut buf = [0u8; 4];
        let text: &str = c.encode_utf8(&mut buf);
        assert_eq!(is_blank(text), text.trim().is_empty(), "{c:?}");
    }
    assert!(is_blank(""));
    assert!(is_blank(" \t\n\u{3000}"));
    assert!(!is_blank(" x "));
}

#[test]
fn log_path_from_the_environment() {
    assert_eq!(lobby_log_path(None), "lobby-watcher.log");
    assert_eq!(lobby_log_path(Some(String::new())), "lobby-watcher.log");
    assert_eq!(lobby_log_path(Some(" \t".into())), "lobby-watcher.log");
    assert_eq!(lobby_log_path(Some(" /x ".into())), " /x ");
}

#[test]
fn registration_from_the_environment() {
    assert_eq!(registration(None), Ok(Registration::Global));
    assert_eq!(registration(Some("42")), Ok(Registration::Guild(42)));
    assert_eq!(registration(Some("")), Err(ParseIdError::Empty));
    assert_eq!(registration(Some("4 2")), Err(ParseIdError::InvalidDigit));
}

#[test]
fn channel_from_the_environment() {
    assert_eq!(channel_setting(None), ChannelSetting::Unset);
    assert_eq!(channel_setting(Some("")), ChannelSetting::Unset);
    assert_eq!(channel_setting(Some(" ")), ChannelSetting::Invalid);
    assert_eq!(channel_setting(Some("99")), ChannelSetting::Channel(99));
}
