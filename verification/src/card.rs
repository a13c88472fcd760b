//! The live lobby card: one message in one channel that shows the lobbies of the
//! last poll.
use vstd::prelude::*;
use vstd::string::*;
use crate::text::starts_with;

verus! {

/// After a failed send or edit, the wait before the next attempt: 300 s in
/// nanoseconds.
pub const CARD_RETRY: u128 = 300_000_000_000;

/// The variable that names the card's channel.
pub const LOBBY_CHANNEL_ENV: &'static str = "DISCORD_LOBBY_CHANNEL_ID";

/// What every card's title begins with.
pub const CARD_TITLE: &'static str = "Open Timestone Lobbies";

/// What a channel lookup found.
#[derive(Clone, Copy, Debug, PartialEq, Eq, Structural)]
pub enum ChannelKind {
    GuildText,
    GuildOther,
    NoGuild,
}

/// Why there can be no card.
#[derive(Clone, Copy, Debug, PartialEq, Eq, Structural)]
pub enum CardProblem {
    BadChannelId,
    NotTextChannel,
    NotGuildChannel,
    LookupFailed,
}

impl CardProblem {
    pub open spec fn reason_text(self) -> Seq<char> {
        match self {
            CardProblem::BadChannelId => "bad channel id"@,
            CardProblem::NotTextChannel => "not a text channel"@,
            CardProblem::NotGuildChannel => "not a guild channel"@,
            CardProblem::LookupFailed => "channel lookup failed"@,
        }
    }

    /// The `reason` field of the `card_error` event.
    pub fn reason(self) -> (r: &'static str)
        ensures
            r@ == self.reason_text(),
    {
        match self {
            CardProblem::BadChannelId => "bad channel id",
            CardProblem::NotTextChannel => "not a text channel",
            CardProblem::NotGuildChannel => "not a guild channel",
            CardProblem::LookupFailed => "channel lookup failed",
        }
    }

    /// The event's sentence, for the variable's text.
    pub fn message(self, raw: &str) -> (r: String)
        ensures
            r@ == (match self {
                CardProblem::BadChannelId => LOBBY_CHANNEL_ENV@ + "="@ + raw@
                    + " is not a valid snowflake"@,
                CardProblem::NotTextChannel => LOBBY_CHANNEL_ENV@ + "="@ + raw@
                    + " is not a text channel"@,
                CardProblem::NotGuildChannel => LOBBY_CHANNEL_ENV@ + "="@ + raw@
                    + " is not in a guild"@,
                CardProblem::LookupFailed => "cannot resolve "@ + LOBBY_CHANNEL_ENV@ + "="@ + raw@,
            }),
    {
        let mut out = match self {
            CardProblem::LookupFailed => "cannot resolve ".to_owned(),
            _ => String::new(),
        };
        out.append(LOBBY_CHANNEL_ENV);
        out.append("=");
        out.append(raw);
        match self {
            CardProblem::BadChannelId => out.append(" is not a valid snowflake"),
            CardProblem::NotTextChannel => out.append(" is not a text channel"),
            CardProblem::NotGuildChannel => out.append(" is not in a guild"),
            CardProblem::LookupFailed => {},
        }
        out
    }
}

/// A card can only stand in a text channel of a guild. `None` is a failed lookup.
pub fn check_channel(found: Option<ChannelKind>) -> (r: Result<(), CardProblem>)
    ensures
        r == (match found {
            Some(ChannelKind::GuildText) => Ok(()),
            Some(ChannelKind::GuildOther) => Err(CardProblem::NotTextChannel),
            Some(ChannelKind::NoGuild) => Err(CardProblem::NotGuildChannel),
            None => Err(CardProblem::LookupFailed),
        }),
{
    match found {
        Some(ChannelKind::GuildText) => Ok(()),
        Some(ChannelKind::GuildOther) => Err(CardProblem::NotTextChannel),
        Some(ChannelKind::NoGuild) => Err(CardProblem::NotGuildChannel),
        None => Err(CardProblem::LookupFailed),
    }
}

/// True when an embed title is a card's: used to find the existing card after a
/// restart instead of posting a duplicate.
pub fn is_lobby_card_title(title: &str) -> (r: bool)
    ensures
        r == CARD_TITLE@.is_prefix_of(title@),
{
    starts_with(title, CARD_TITLE)
}

/// A message of the channel: its id and the titles of its embeds.
pub struct ChannelMessage {
    pub id: u64,
    pub titles: Vec<Option<String>>,
}

impl ChannelMessage {
    pub open spec fn is_card(self) -> bool {
        exists|i: int|
            0 <= i < self.titles@.len() && (#[trigger] self.titles@[i] matches Some(title)
                && CARD_TITLE@.is_prefix_of(title@))
    }
}

/// True when one of the message's embeds has a card's title.
pub fn is_lobby_card(msg: &ChannelMessage) -> (r: bool)
    ensures
        r == msg.is_card(),
{
    let mut i: usize = 0;
    while i < msg.titles.len()
        invariant
            i <= msg.titles.len(),
            forall|j: int|
                0 <= j < i ==> !(#[trigger] msg.titles@[j] matches Some(title)
                    && CARD_TITLE@.is_prefix_of(title@)),
        decreases msg.titles.len() - i,
    {
        if let Some(title) = &msg.titles[i] {
            if is_lobby_card_title(title.as_str()) {
                return true;
            }
        }
        i += 1;
    }
    false
}

/// The first card among the messages.
pub fn find_lobby_card(messages: &Vec<ChannelMessage>) -> (r: Option<u64>)
    ensures
        match r {
            Some(id) => exists|i: int|
                0 <= i < messages@.len() && (#[trigger] messages@[i]).is_card() && messages@[i].id
                    == id && forall|j: int| 0 <= j < i ==> !(#[trigger] messages@[j]).is_card(),
            None => forall|i: int| 0 <= i < messages@.len() ==> !(#[trigger] messages@[i]).is_card(),
        },
{
    let mut i: usize = 0;
    while i < messages.len()
        invariant
            i <= messages.len(),
            forall|j: int| 0 <= j < i ==> !(#[trigger] messages@[j]).is_card(),
        decreases messages.len() - i,
    {
        if is_lobby_card(&messages[i]) {
            return Some(messages[i].id);
        }
        i += 1;
    }
    None
}

/// What is to be done about the card.
#[derive(Clone, Copy, Debug, PartialEq, Eq, Structural)]
pub enum CardAction {
    Wait,
    /// Post the card as a new message.
    Send,
    /// Put the new content into the message with this id.
    Edit(u64),
}

/// What a failed send or edit means.
#[derive(Clone, Copy, Debug, PartialEq, Eq, Structural)]
pub enum CardSetback {
    /// The message was deleted; a fresh one is posted on the next tick. Only a card that
    /// was there can be deleted: a send that finds nothing is a failure like any other.
    Gone(Option<u64>),
    /// Anything else is tried again later.
    Retry,
}

/// The card's message, the poll that it shows, and a wait that is in force. Times
/// are nanoseconds of the monotonic clock.
#[derive(Clone, Copy, Debug, PartialEq, Eq, Structural)]
pub struct CardState {
    pub message_id: Option<u64>,
    pub last_rendered: Option<u64>,
    pub retry_after: Option<u128>,
}

impl CardState {
    /// The state at the start, with the card of a previous run if there is one.
    pub open spec fn started(existing: Option<u64>) -> CardState {
        CardState { message_id: existing, last_rendered: None, retry_after: None }
    }

    /// A poll has completed since the last rendering and no wait is in force.
    pub open spec fn is_due(self, poll_index: u64, now: u128) -> bool {
        &&& poll_index != 0
        &&& self.last_rendered != Some(poll_index)
        &&& self.retry_after matches Some(until) ==> now >= until
    }

    pub open spec fn action(self, poll_index: u64, now: u128) -> CardAction {
        if !self.is_due(poll_index, now) {
            CardAction::Wait
        } else {
            match self.message_id {
                Some(id) => CardAction::Edit(id),
                None => CardAction::Send,
            }
        }
    }

    /// The state while the action is carried out: a wait that is over is forgotten.
    pub open spec fn stepped(self, poll_index: u64, now: u128) -> CardState {
        if self.is_due(poll_index, now) {
            CardState { retry_after: None, ..self }
        } else {
            self
        }
    }

    /// The state after message `id` has come to show the poll.
    pub open spec fn shown(self, poll_index: u64, id: u64) -> CardState {
        CardState { message_id: Some(id), last_rendered: Some(poll_index), ..self }
    }

    /// The state after the service refused a send or edit with an HTTP status.
    pub open spec fn refused(self, status: Option<u16>, now: int) -> CardState {
        if status == Some(404u16) && self.message_id is Some {
            CardState { message_id: None, last_rendered: None, retry_after: None }
        } else {
            CardState { retry_after: Some((now + CARD_RETRY) as u128), ..self }
        }
    }

    pub fn start(existing: Option<u64>) -> (r: CardState)
        ensures
            r == Self::started(existing),
    {
        CardState { message_id: existing, last_rendered: None, retry_after: None }
    }

    /// Decides what to do about the card after poll `poll_index`.
    pub fn step(&mut self, poll_index: u64, now: u128) -> (r: CardAction)
        ensures
            r == old(self).action(poll_index, now),
            *final(self) == old(self).stepped(poll_index, now),
    {
        if poll_index == 0 {
            return CardAction::Wait;
        }
        if let Some(rendered) = self.last_rendered {
            if rendered == poll_index {
                return CardAction::Wait;
            }
        }
        if let Some(until) = self.retry_after {
            if now < until {
                return CardAction::Wait;
            }
            self.retry_after = None;
        }
        match self.message_id {
            Some(id) => CardAction::Edit(id),
            None => CardAction::Send,
        }
    }

    /// Takes note that message `id` shows the poll.
    pub fn delivered(&mut self, poll_index: u64, id: u64)
        ensures
            *final(self) == old(self).shown(poll_index, id),
    {
        self.message_id = Some(id);
        self.last_rendered = Some(poll_index);
    }

    /// Takes note that a send or edit failed, with its HTTP status if it has one.
    pub fn failed(&mut self, status: Option<u16>, now: u128) -> (r: CardSetback)
        requires
            !(status == Some(404u16) && old(self).message_id is Some) ==> now <= u128::MAX
                - CARD_RETRY,
        ensures
            r == (if status == Some(404u16) && old(self).message_id is Some {
                CardSetback::Gone(old(self).message_id)
            } else {
                CardSetback::Retry
            }),
            *final(self) == old(self).refused(status, now as int),
    {
        let gone: bool = match status {
            Some(code) => code == 404 && self.message_id.is_some(),
            None => false,
        };
        if gone {
            let lost = self.message_id;
            self.message_id = None;
            self.last_rendered = None;
            self.retry_after = None;
            CardSetback::Gone(lost)
        } else {
            self.retry_after = Some(now + CARD_RETRY);
            CardSetback::Retry
        }
    }
}

/// Before the first poll there is nothing to render.
pub proof fn law_nothing_before_first_poll(s: CardState, now: u128)
    ensures
        s.action(0, now) == CardAction::Wait,
{
}

/// A poll is rendered once: after it is shown, only another poll calls for work, and
/// that at once.
pub proof fn law_rendered_once(s: CardState, poll: u64, other: u64, id: u64, now: u128, later: u128)
    requires
        s.is_due(poll, now),
        other != 0,
        other != poll,
    ensures
        s.stepped(poll, now).shown(poll, id).action(poll, later) == CardAction::Wait,
        s.stepped(poll, now).shown(poll, id).action(other, later) == CardAction::Edit(id),
{
}

/// There is one message: while message `id` is the card nothing is sent anew, and no
/// step, no rendering and no failure lets go of it but the news that it is gone.
pub proof fn law_one_message(s: CardState, id: u64, poll: u64, now: u128, status: Option<u16>)
    requires
        s.message_id == Some(id),
        status != Some(404u16),
    ensures
        s.action(poll, now) == CardAction::Wait || s.action(poll, now) == CardAction::Edit(id),
        s.stepped(poll, now).message_id == Some(id),
        s.shown(poll, id).message_id == Some(id),
        s.refused(status, now as int).message_id == Some(id),
{
}

/// One round of the card's loop: the last poll, the time, and what the service answers if
/// it is asked: the id of a message that was sent, or the status of a failure.
pub struct CardRound {
    pub poll: u64,
    pub now: u128,
    pub answer: Result<u64, Option<u16>>,
}

impl CardState {
    /// The state after a round. An edited message keeps its id.
    pub open spec fn after(self, round: CardRound) -> CardState {
        let s = self.stepped(round.poll, round.now);
        match (self.action(round.poll, round.now), round.answer) {
            (CardAction::Wait, _) => s,
            (CardAction::Edit(id), Ok(_)) => s.shown(round.poll, id),
            (CardAction::Send, Ok(id)) => s.shown(round.poll, id),
            (_, Err(status)) => s.refused(status, round.now as int),
        }
    }

    /// The state after a run of rounds.
    pub open spec fn after_all(self, rounds: Seq<CardRound>) -> CardState
        decreases rounds.len(),
    {
        if rounds.len() == 0 {
            self
        } else {
            self.after(rounds[0]).after_all(rounds.drop_first())
        }
    }

    /// How many times in a run of rounds an edit was answered that its message is gone.
    pub open spec fn lost(self, rounds: Seq<CardRound>) -> nat
        decreases rounds.len(),
    {
        if rounds.len() == 0 {
            0
        } else {
            let round = rounds[0];
            let rest = self.after(round).lost(rounds.drop_first());
            if self.action(round.poll, round.now) is Edit && round.answer == Err::<
                u64,
                Option<u16>,
            >(Some(404u16)) {
                rest + 1
            } else {
                rest
            }
        }
    }

    /// How many messages a run of rounds posts.
    pub open spec fn posted(self, rounds: Seq<CardRound>) -> nat
        decreases rounds.len(),
    {
        if rounds.len() == 0 {
            0
        } else {
            let round = rounds[0];
            let rest = self.after(round).posted(rounds.drop_first());
            if self.action(round.poll, round.now) == CardAction::Send && round.answer is Ok {
                rest + 1
            } else {
                rest
            }
        }
    }
}

/// The card counts as one message while there is one.
pub open spec fn count(message_id: Option<u64>) -> nat {
    if message_id is Some {
        1
    } else {
        0
    }
}

/// However long the loop runs and whatever fails, there is never more than one message: what
/// the channel held at the start and what was posted since is what was reported as deleted
/// and the one card that is left, if any. So nothing is posted while there is a card, and
/// no more than one message in place of each that was deleted.
pub proof fn law_no_duplicates(s: CardState, rounds: Seq<CardRound>)
    ensures
        count(s.message_id) + s.posted(rounds) == s.lost(rounds) + count(
            s.after_all(rounds).message_id,
        ),
        s.posted(rounds) <= s.lost(rounds) + 1 - count(s.message_id),
    decreases rounds.len(),
{
    if rounds.len() > 0 {
        law_no_duplicates(s.after(rounds[0]), rounds.drop_first());
    }
}

/// A card that a previous run left behind is edited, not posted a second time.
pub proof fn law_restart_reuses_card(id: u64, poll: u64, now: u128)
    requires
        poll != 0,
    ensures
        CardState::started(Some(id)).action(poll, now) == CardAction::Edit(id),
{
}

/// A card that was deleted is posted afresh on the next tick, without a wait, even for
/// the poll that was shown last.
pub proof fn law_deleted_card_is_reposted(s: CardState, now: int, poll: u64, later: u128)
    requires
        s.message_id is Some,
        poll != 0,
    ensures
        s.refused(Some(404u16), now).action(poll, later) == CardAction::Send,
{
}

/// After any other failure, a send into a channel that is gone among them, nothing is tried
/// for the length of the wait; then the same work is due again.
pub proof fn law_failure_waits(
    s: CardState,
    poll: u64,
    now: u128,
    status: Option<u16>,
    later: u128,
)
    requires
        s.is_due(poll, now),
        status != Some(404u16) || s.message_id is None,
        now <= u128::MAX - CARD_RETRY,
    ensures
        s.stepped(poll, now).refused(status, now as int).action(poll, later) == (if later < now
            + CARD_RETRY {
            CardAction::Wait
        } else {
            s.action(poll, now)
        }),
{
}

/// Without a card of a previous run the first poll is posted, at whatever time it comes.
pub proof fn law_first_card_is_posted(poll: u64, now: u128)
    requires
        poll != 0,
    ensures
        CardState::started(None).action(poll, now) == CardAction::Send,
{
}

/// A run starts with the card that was found, with nothing rendered and no wait in force.
pub proof fn law_start(existing: Option<u64>, r: CardState)
    requires
        call_ensures(CardState::start, (existing,), r),
    ensures
        r.message_id == existing,
        r.last_rendered is None,
        r.retry_after is None,
        r == CardState::started(existing),
{
}

/// The card waits for three reasons and for no other: no poll has completed, the poll is the
/// one that it shows, or a wait is in force that ends later.
pub proof fn law_card_waits(s: CardState, poll: u64, now: u128)
    ensures
        s.action(poll, now) == CardAction::Wait <==> (poll == 0 || s.last_rendered == Some(poll)
            || (s.retry_after is Some && now < s.retry_after->0)),
        s.action(poll, now) == CardAction::Send ==> s.message_id is None,
        forall|id: u64|
            s.action(poll, now) == CardAction::Edit(id) ==> s.message_id == Some(id),
{
}

/// Once a poll calls for work it does so at every later time too, with the same work, until
/// something is done about it.
pub proof fn law_work_stays_due(s: CardState, poll: u64, now: u128, later: u128)
    requires
        now <= later,
        s.action(poll, now) != CardAction::Wait,
    ensures
        s.action(poll, later) == s.action(poll, now),
        s.stepped(poll, now).action(poll, later) == s.action(poll, now),
{
}

/// A step that waits changes nothing. One that calls for work ends the wait that was in force,
/// and keeps the message and the poll that it shows.
pub proof fn law_step(s: &mut CardState, poll: u64, now: u128, r: CardAction)
    requires
        call_ensures(CardState::step, (s, poll, now), r),
    ensures
        r == CardAction::Wait <==> {
            ||| poll == 0
            ||| old(s).last_rendered == Some(poll)
            ||| old(s).retry_after is Some && now < old(s).retry_after->0
        },
        r == CardAction::Send ==> old(s).message_id is None,
        forall|id: u64| r == CardAction::Edit(id) ==> old(s).message_id == Some(id),
        r == CardAction::Wait ==> *final(s) == *old(s),
        r != CardAction::Wait ==> final(s).retry_after is None,
        final(s).message_id == old(s).message_id,
        final(s).last_rendered == old(s).last_rendered,
{
}

/// After a delivery the card is the message that was delivered and shows the poll; a wait is
/// neither begun nor ended.
pub proof fn law_delivered(s: &mut CardState, poll: u64, id: u64)
    requires
        call_ensures(CardState::delivered, (s, poll, id), ()),
    ensures
        final(s).message_id == Some(id),
        final(s).last_rendered == Some(poll),
        final(s).retry_after == old(s).retry_after,
{
}

/// A card that was there and is not found any more is gone, and nothing is left of it. Any other
/// failure keeps the message and the poll that it shows, and begins a wait of 300 s.
pub proof fn law_failed(s: &mut CardState, status: Option<u16>, now: u128, r: CardSetback)
    requires
        call_ensures(CardState::failed, (s, status, now), r),
    ensures
        status == Some(404u16) && old(s).message_id is Some ==> {
            &&& r == CardSetback::Gone(old(s).message_id)
            &&& final(s).message_id is None
            &&& final(s).last_rendered is None
            &&& final(s).retry_after is None
        },
        status != Some(404u16) || old(s).message_id is None ==> {
            &&& r == CardSetback::Retry
            &&& final(s).message_id == old(s).message_id
            &&& final(s).last_rendered == old(s).last_rendered
            &&& final(s).retry_after is Some
            &&& now <= u128::MAX - 300_000_000_000 ==> final(s).retry_after->0 - now
                == 300_000_000_000
        },
{
}

/// A title is a card's exactly when its first 22 characters are those of every card's title.
pub proof fn law_card_title(title: &str, r: bool)
    requires
        call_ensures(is_lobby_card_title, (title,), r),
    ensures
        r <==> (title@.len() >= 22 && title@.subrange(0, 22) == "Open Timestone Lobbies"@),
{
    reveal_strlit("Open Timestone Lobbies");
}

/// A message is a card exactly when one of its embeds has a title that is a card's.
pub proof fn law_card_message(msg: &ChannelMessage, r: bool)
    requires
        call_ensures(is_lobby_card, (msg,), r),
    ensures
        r == msg.is_card(),
        r <==> (exists|i: int|
            0 <= i < msg.titles@.len() && #[trigger] msg.titles@[i] is Some
                && msg.titles@[i]->0@.len() >= 22 && msg.titles@[i]->0@.subrange(0, 22)
                == "Open Timestone Lobbies"@),
{
    reveal_strlit("Open Timestone Lobbies");
    if r {
        let i = choose|i: int|
            0 <= i < msg.titles@.len() && (#[trigger] msg.titles@[i] matches Some(title)
                && CARD_TITLE@.is_prefix_of(title@));
        assert(msg.titles@[i] is Some);
    } else if exists|i: int|
        0 <= i < msg.titles@.len() && #[trigger] msg.titles@[i] is Some && msg.titles@[i]->0@.len()
            >= 22 && msg.titles@[i]->0@.subrange(0, 22) == "Open Timestone Lobbies"@ {
        let i = choose|i: int|
            0 <= i < msg.titles@.len() && #[trigger] msg.titles@[i] is Some
                && msg.titles@[i]->0@.len() >= 22 && msg.titles@[i]->0@.subrange(0, 22)
                == "Open Timestone Lobbies"@;
        assert(CARD_TITLE@.is_prefix_of(msg.titles@[i]->0@));
        assert(msg.is_card());
    }
}

/// The card that is found is the first message that is one; none is found only where there is
/// none.
pub proof fn law_first_card_is_found(messages: &Vec<ChannelMessage>, i: int, r: Option<u64>)
    requires
        call_ensures(find_lobby_card, (messages,), r),
        0 <= i <= messages@.len(),
        forall|j: int| 0 <= j < i ==> !(#[trigger] messages@[j]).is_card(),
    ensures
        i < messages@.len() && messages@[i].is_card() ==> r == Some(messages@[i].id),
        i == messages@.len() ==> r is None,
{
}

/// The reason and the sentence of each problem; every sentence names the variable with the
/// text that it holds.
pub proof fn law_problem_texts(p: CardProblem, raw: &str, reason: &'static str, message: String)
    requires
        call_ensures(CardProblem::reason, (p,), reason),
        call_ensures(CardProblem::message, (p, raw), message),
    ensures
        p is BadChannelId ==> reason@ == "bad channel id"@ && message@
            == "DISCORD_LOBBY_CHANNEL_ID"@ + "="@ + raw@ + " is not a valid snowflake"@,
        p is NotTextChannel ==> reason@ == "not a text channel"@ && message@
            == "DISCORD_LOBBY_CHANNEL_ID"@ + "="@ + raw@ + " is not a text channel"@,
        p is NotGuildChannel ==> reason@ == "not a guild channel"@ && message@
            == "DISCORD_LOBBY_CHANNEL_ID"@ + "="@ + raw@ + " is not in a guild"@,
        p is LookupFailed ==> reason@ == "channel lookup failed"@ && message@ == "cannot resolve "@
            + "DISCORD_LOBBY_CHANNEL_ID"@ + "="@ + raw@,
{
}

/// Only a text channel of a guild takes a card, and each other finding is a problem of its own.
pub proof fn law_channel_check(found: Option<ChannelKind>, r: Result<(), CardProblem>)
    requires
        call_ensures(check_channel, (found,), r),
    ensures
        r is Ok <==> found == Some(ChannelKind::GuildText),
        r == Err::<(), CardProblem>(CardProblem::NotTextChannel) <==> found == Some(
            ChannelKind::GuildOther,
        ),
        r == Err::<(), CardProblem>(CardProblem::NotGuildChannel) <==> found == Some(
            ChannelKind::NoGuild,
        ),
        r == Err::<(), CardProblem>(CardProblem::LookupFailed) <==> found is None,
{
}

} // verus!
