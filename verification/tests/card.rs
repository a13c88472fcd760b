use lobby_watcher::card::{
    check_channel, find_lobby_card, is_lobby_card, is_lobby_card_title, CardAction, CardProblem,
    CardSetback, CardState, ChannelKind, ChannelMessage, CARD_RETRY,
};

#[test]
fn card_title_marker() {
    assert!(is_lobby_card_title("Open Timestone Lobbies - 3"));
    assert!(is_lobby_card_title("Open Timestone Lobbies - 0"));
    assert!(!is_lobby_card_title("Open Timestone"));
    assert!(!is_lobby_card_title(""));
}

#[test]
fn card_title_is_compared_from_the_start() {
    assert!(is_lobby_card_title("Open Timestone Lobbies"));
    assert!(!is_lobby_card_title(" Open Timestone Lobbies"));
    assert!(!is_lobby_card_title("open timestone lobbies - 3"));
}

fn message(id: u64, titles: &[Option<&str>]) -> ChannelMessage {
    ChannelMessage { id, titles: titles.iter().map(|t| t.map(String::from)).collect() }
}

#[test]
fn first_card_is_found() {
    let messages = vec![
        message(1, &[]),
        message(2, &[None, Some("News")]),
        message(3, &[None, Some("Open Timestone Lobbies - 4")]),
        message(4, &[Some("Open Timestone Lobbies - 5")]),
    ];
    assert!(!is_lobby_card(&messages[1]));
    assert!(is_lobby_card(&messages[2]));
    assert_eq!(find_lobby_card(&messages), Some(3));
    assert_eq!(find_lobby_card(&vec![message(1, &[Some("x")])]), None);
    assert_eq!(find_lobby_card(&vec![]), None);
}

#[test]
fn channel_must_be_guild_text() {
    assert_eq!(check_channel(Some(ChannelKind::GuildText)), Ok(()));
    assert_eq!(check_channel(Some(ChannelKind::GuildOther)), Err(CardProblem::NotTextChannel));
    assert_eq!(check_channel(Some(ChannelKind::NoGuild)), Err(CardProblem::NotGuildChannel));
    assert_eq!(check_channel(None), Err(CardProblem::LookupFailed));
}

#[test]
fn problems_say_what_is_wrong() {
    assert_eq!(CardProblem::BadChannelId.reason(), "bad channel id");
    assert_eq!(CardProblem::NotTextChannel.reason(), "not a text channel");
    assert_eq!(CardProblem::NotGuildChannel.reason(), "not a guild channel");
    assert_eq!(CardProblem::LookupFailed.reason(), "channel lookup failed");
    assert_eq!(
        CardProblem::BadChannelId.message("x1"),
        "DISCORD_LOBBY_CHANNEL_ID=x1 is not a valid snowflake"
    );
    assert_eq!(
        CardProblem::NotTextChannel.message("7"),
        "DISCORD_LOBBY_CHANNEL_ID=7 is not a text channel"
    );
    assert_eq!(
        CardProblem::NotGuildChannel.message("7"),
        "DISCORD_LOBBY_CHANNEL_ID=7 is not in a guild"
    );
    assert_eq!(
        CardProblem::LookupFailed.message("7"),
        "cannot resolve DISCORD_LOBBY_CHANNEL_ID=7"
    );
}

#[test]
fn card_is_sent_once_and_then_edited() {
    let mut s = CardState::start(None);
    assert_eq!(s.step(0, 0), CardAction::Wait);
    assert_eq!(s.step(1, 0), CardAction::Send);
    s.delivered(1, 99);
    assert_eq!(s.step(1, 1), CardAction::Wait);
    assert_eq!(s.step(2, 2), CardAction::Edit(99));
    s.delivered(2, 99);
    assert_eq!(s.step(2, 3), CardAction::Wait);
}

#[test]
fn card_of_a_previous_run_is_edited() {
    let mut s = CardState::start(Some(5));
    assert_eq!(s.step(1, 0), CardAction::Edit(5));
}

#[test]
fn deleted_card_is_reposted_at_once() {
    let mut s = CardState::start(Some(5));
    s.delivered(3, 5);
    assert_eq!(s.step(4, 10), CardAction::Edit(5));
    assert_eq!(s.failed(Some(404), 10), CardSetback::Gone(Some(5)));
    assert_eq!(s.step(4, 10), CardAction::Send);
    assert_eq!(s.step(3, 10), CardAction::Send);
}

#[test]
fn each_deleted_card_is_replaced_by_one() {
    let mut s = CardState::start(None);
    let mut live = 0;
    let mut next_id = 10;
    for poll in 1..60u64 {
        match s.step(poll, poll as u128) {
            CardAction::Send => {
                next_id += 1;
                live += 1;
                s.delivered(poll, next_id);
            }
            CardAction::Edit(id) if poll % 7 == 0 => {
                assert_eq!(s.failed(Some(404), poll as u128), CardSetback::Gone(Some(id)));
                live -= 1;
            }
            CardAction::Edit(id) => s.delivered(poll, id),
            CardAction::Wait => unreachable!(),
        }
        assert_eq!(live, s.message_id.iter().count());
    }
}

#[test]
fn send_into_a_missing_channel_waits() {
    let mut s = CardState::start(None);
    assert_eq!(s.step(1, 7), CardAction::Send);
    assert_eq!(s.failed(Some(404), 7), CardSetback::Retry);
    assert_eq!(s.step(1, 8), CardAction::Wait);
    assert_eq!(s.step(2, 7 + CARD_RETRY - 1), CardAction::Wait);
    assert_eq!(s.step(2, 7 + CARD_RETRY), CardAction::Send);
}

#[test]
fn other_failures_wait() {
    for status in [None, Some(403), Some(500), Some(405)] {
        let mut s = CardState::start(Some(5));
        assert_eq!(s.step(4, 10), CardAction::Edit(5));
        assert_eq!(s.failed(status, 10), CardSetback::Retry);
        assert_eq!(s.step(4, 10 + CARD_RETRY - 1), CardAction::Wait);
        assert_eq!(s.step(5, 11), CardAction::Wait);
        assert_eq!(s.step(5, 10 + CARD_RETRY), CardAction::Edit(5));
        assert_eq!(s.retry_after, None);
    }
}
