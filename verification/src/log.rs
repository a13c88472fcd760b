//! Lifecycle events of lobbies and the rows of the plain-text history log.
use vstd::prelude::*;
use vstd::string::*;
use crate::calendar::{law_utc_text_is_row, utc_text};
use crate::clock::{clock_shows, utc_now};
use crate::lobby::Lobby;
use crate::text::{
    append_decimal, decimal, is_row, law_decimal_value, lemma_decimal_is_row, lemma_digits_end,
    lemma_same_start, lemma_written, writes,
};

verus! {

/// What happened to a lobby between two polls.
#[derive(Clone, Copy, Debug, PartialEq, Eq, Structural)]
pub enum EventKind {
    Created,
    Updated,
    Deleted,
}

impl EventKind {
    /// The event's name on the wire and in the log.
    pub open spec fn text(self) -> Seq<char> {
        match self {
            EventKind::Created => "created"@,
            EventKind::Updated => "updated"@,
            EventKind::Deleted => "deleted"@,
        }
    }

    pub fn name(self) -> (r: &'static str)
        ensures
            r@ == self.text(),
    {
        match self {
            EventKind::Created => "created",
            EventKind::Updated => "updated",
            EventKind::Deleted => "deleted",
        }
    }

    /// The history log keeps when a lobby came and went, not how it changed.
    pub fn is_logged(self) -> (r: bool)
        ensures
            r == (self == EventKind::Created || self == EventKind::Deleted),
    {
        match self {
            EventKind::Created | EventKind::Deleted => true,
            EventKind::Updated => false,
        }
    }

    /// The sentence that goes with the event.
    pub fn message(self) -> (r: String)
        ensures
            r@ == "Timestone lobby "@ + self.text(),
    {
        let mut out = "Timestone lobby ".to_owned();
        out.append(self.name());
        out
    }
}

/// An event and the lobby it is about: the new sighting of a created or updated
/// lobby, the last sighting of a deleted one.
pub struct LobbyEvent {
    pub kind: EventKind,
    pub lobby: Lobby,
}

/// A string as `{:?}` shows it.
pub uninterp spec fn quoted(s: Seq<char>) -> Seq<char>;

/// Text that can stand between quotes: read from the left, a backslash takes the character
/// behind it along, and no quote is left over.
pub open spec fn is_quotable(s: Seq<char>) -> bool
    decreases s.len(),
{
    if s.len() == 0 {
        true
    } else if s[0] == '\\' {
        s.len() >= 2 && is_quotable(s.skip(2))
    } else {
        s[0] != '"' && is_quotable(s.skip(1))
    }
}

/// Text in double quotes that stays within them and within its line: the quote that ends
/// it is the first one that no backslash takes along, and no character breaks the line.
pub open spec fn is_quoted(q: Seq<char>) -> bool {
    &&& q.len() >= 2
    &&& q.first() == '"'
    &&& q.last() == '"'
    &&& is_quotable(q.subrange(1, q.len() - 1))
    &&& is_row(q)
}

/// A character of quoted text: line breaks, tabs, double quotes and backslashes are
/// written with a backslash in front.
pub open spec fn escaped_char(c: char) -> Seq<char> {
    if c == '\n' {
        seq!['\\', 'n']
    } else if c == '\r' {
        seq!['\\', 'r']
    } else if c == '\t' {
        seq!['\\', 't']
    } else if c == '"' || c == '\\' {
        seq!['\\', c]
    } else {
        seq![c]
    }
}

pub open spec fn escaped(s: Seq<char>) -> Seq<char>
    decreases s.len(),
{
    if s.len() == 0 {
        Seq::empty()
    } else {
        escaped(s.drop_last()) + escaped_char(s.last())
    }
}

/// Text of printable ASCII characters, line breaks and tabs, without a single quote.
pub open spec fn is_plain(s: Seq<char>) -> bool {
    forall|i: int|
        0 <= i < s.len() ==> {
            let c = #[trigger] s[i];
            &&& ' ' <= c && c <= '~' || c == '\n' || c == '\r' || c == '\t'
            &&& c != '\''
        }
}

/// `q` is the quotation of `s`: it keeps within its quotes and its line, for plain text it
/// is exactly the escaped text between quotes, and no other string is shown as it is.
pub open spec fn is_quotation(s: Seq<char>, q: Seq<char>) -> bool {
    &&& is_quoted(q)
    &&& is_plain(s) ==> q == seq!['"'] + escaped(s) + seq!['"']
    &&& forall|t: Seq<char>| #[trigger] quoted(t) == q ==> t == s
}

/// The `Debug` text of a `str`, which `format!` gives for `{:?}`. Claimed of it: it is a
/// function of the string, it stands in double quotes, quotes, line feeds, carriage
/// returns and tabs of the string are escaped with a backslash, and so are backslashes,
/// while other printable ASCII characters are kept; no control character and no separator
/// of lines or paragraphs is left in it; and two different strings never show alike, since
/// what is not kept is written as an escape code of its own, and a backslash of the string
/// is not kept. Not claimed: which escape codes stand for the other control characters,
/// which characters outside ASCII are kept, and how single quotes are shown.
#[verifier::external_body]
fn quote(s: &str) -> (r: String)
    ensures
        r@ == quoted(s@),
        is_quotation(s@, r@),
{
    format!("{:?}", s)
}

/// A log line around the quoted texts of a lobby.
pub open spec fn line_around(
    now: Seq<char>,
    event: Seq<char>,
    lobby: Lobby,
    name: Seq<char>,
    host: Seq<char>,
    protocol: Seq<char>,
) -> Seq<char> {
    now + " "@ + event + " id="@ + decimal(lobby.id as nat) + " name="@ + name + " host="@ + host
        + " protocol="@ + protocol + " members="@ + decimal(lobby.members as nat) + " owner="@
        + decimal(lobby.owner as nat)
}

/// One log line: timestamp, event, then every lobby field.
pub open spec fn log_line(now: Seq<char>, event: Seq<char>, lobby: Lobby) -> Seq<char> {
    line_around(
        now,
        event,
        lobby,
        quoted(lobby.name@),
        quoted(lobby.host@),
        quoted(lobby.protocol@),
    )
}

/// The texts of the lobby have their quotations. That is so of every lobby for which a log
/// line was written.
pub open spec fn has_quotations(lobby: Lobby) -> bool {
    &&& is_quotation(lobby.name@, quoted(lobby.name@))
    &&& is_quotation(lobby.host@, quoted(lobby.host@))
    &&& is_quotation(lobby.protocol@, quoted(lobby.protocol@))
}

/// Puts a log line together from a lobby and its texts as they are to appear.
pub fn join_log_line(
    now: &str,
    event: &str,
    lobby: &Lobby,
    name: &str,
    host: &str,
    protocol: &str,
) -> (r: String)
    ensures
        r@ == line_around(now@, event@, *lobby, name@, host@, protocol@),
{
    let mut out = now.to_owned();
    out.append(" ");
    out.append(event);
    out.append(" id=");
    append_decimal(&mut out, lobby.id);
    out.append(" name=");
    out.append(name);
    out.append(" host=");
    out.append(host);
    out.append(" protocol=");
    out.append(protocol);
    out.append(" members=");
    append_decimal(&mut out, lobby.members as u64);
    out.append(" owner=");
    append_decimal(&mut out, lobby.owner);
    out
}

/// Whatever the quoted texts are, a line around them is one row.
proof fn lemma_line_is_row(
    now: Seq<char>,
    event: Seq<char>,
    lobby: Lobby,
    name: Seq<char>,
    host: Seq<char>,
    protocol: Seq<char>,
)
    requires
        is_row(now),
        is_row(event),
        is_quoted(name),
        is_quoted(host),
        is_quoted(protocol),
    ensures
        is_row(line_around(now, event, lobby, name, host, protocol)),
{
    reveal_strlit(" ");
    reveal_strlit(" id=");
    reveal_strlit(" name=");
    reveal_strlit(" host=");
    reveal_strlit(" protocol=");
    reveal_strlit(" members=");
    reveal_strlit(" owner=");
    lemma_decimal_is_row(lobby.id as nat);
    lemma_decimal_is_row(lobby.members as nat);
    lemma_decimal_is_row(lobby.owner as nat);
    assert(is_row(name) && is_row(host) && is_row(protocol));
}

/// One human-readable log line: UTC timestamp, event, then every lobby field. The
/// texts that players chose are escaped, so they never break the line.
pub fn lobby_log_line(now: &str, event: &str, lobby: &Lobby) -> (r: String)
    ensures
        r@ == log_line(now@, event@, *lobby),
        has_quotations(*lobby),
        is_row(now@) && is_row(event@) ==> is_row(r@),
{
    let name = quote(lobby.name.as_str());
    let host = quote(lobby.host.as_str());
    let protocol = quote(lobby.protocol.as_str());
    proof {
        if is_row(now@) && is_row(event@) {
            lemma_line_is_row(now@, event@, *lobby, name@, host@, protocol@);
        }
    }
    join_log_line(now, event, lobby, name.as_str(), host.as_str(), protocol.as_str())
}

proof fn lemma_quotable_ends(a: Seq<char>, x: Seq<char>, b: Seq<char>, y: Seq<char>)
    requires
        is_quotable(a),
        is_quotable(b),
        x.len() > 0 && x[0] == '"',
        y.len() > 0 && y[0] == '"',
        a + x == b + y,
    ensures
        a == b,
        x == y,
    decreases a.len() + b.len(),
{
    let left = a + x;
    let right = b + y;
    if a.len() == 0 || b.len() == 0 {
        assert(left[0] == (if a.len() == 0 { x[0] } else { a[0] }));
        assert(right[0] == (if b.len() == 0 { y[0] } else { b[0] }));
        assert(a.len() == 0 && b.len() == 0);
        assert(a == b);
        assert(x == left.skip(0));
        assert(y == right.skip(0));
    } else {
        assert(left[0] == a[0] && right[0] == b[0]);
        let n: int = if a[0] == '\\' { 2 } else { 1 };
        assert(left.skip(n) == a.skip(n) + x);
        assert(right.skip(n) == b.skip(n) + y);
        lemma_quotable_ends(a.skip(n), x, b.skip(n), y);
        assert(a == left.take(n) + a.skip(n));
        assert(b == right.take(n) + b.skip(n));
    }
}

/// A quotation ends with its own last quote, whatever follows.
proof fn lemma_quotation_ends(p: Seq<char>, x: Seq<char>, q: Seq<char>, y: Seq<char>)
    requires
        is_quoted(p),
        is_quoted(q),
        p + x == q + y,
    ensures
        p == q,
        x == y,
{
    let a = p.subrange(1, p.len() - 1);
    let b = q.subrange(1, q.len() - 1);
    let end = seq!['"'];
    assert(p == end + a + end);
    assert(q == end + b + end);
    assert(p + x == end + (a + (end + x)));
    assert(q + y == end + (b + (end + y)));
    lemma_same_start(end, a + (end + x), b + (end + y));
    lemma_quotable_ends(a, end + x, b, end + y);
    lemma_same_start(end, x, y);
}

proof fn lemma_number_ends(a: nat, x: Seq<char>, b: nat, y: Seq<char>, mark: Seq<char>)
    requires
        mark.len() > 0 && mark[0] == ' ',
        decimal(a) + (mark + x) == decimal(b) + (mark + y),
    ensures
        a == b,
        x == y,
{
    law_decimal_value(a);
    law_decimal_value(b);
    lemma_digits_end(decimal(a), mark + x, decimal(b), mark + y);
    lemma_same_start(mark, x, y);
}

/// The texts between which a line with the given quotations lies, from the id on.
proof fn lemma_line_parts(
    now: Seq<char>,
    event: Seq<char>,
    lobby: Lobby,
    name: Seq<char>,
    host: Seq<char>,
    protocol: Seq<char>,
)
    ensures
        line_around(now, event, lobby, name, host, protocol) == (now + " "@ + event + " id="@) + (
        decimal(lobby.id as nat) + (" name="@ + (name + (" host="@ + (host + (" protocol="@ + (
        protocol + (" members="@ + (decimal(lobby.members as nat) + (" owner="@ + decimal(
            lobby.owner as nat,
        ))))))))))),
{
}

/// Every field is in the line, and no text that a player chose can pass for another field:
/// two lines of one time and one event are equal exactly when the lobbies agree in all six
/// fields.
pub proof fn law_lines_tell_lobbies_apart(now: Seq<char>, event: Seq<char>, a: Lobby, b: Lobby)
    requires
        has_quotations(a),
        has_quotations(b),
    ensures
        log_line(now, event, a) == log_line(now, event, b) <==> a.id == b.id && a.name@ == b.name@
            && a.host@ == b.host@ && a.protocol@ == b.protocol@ && a.members == b.members && a.owner
            == b.owner,
{
    if log_line(now, event, a) == log_line(now, event, b) {
        let (na, nb) = (quoted(a.name@), quoted(b.name@));
        let (ha, hb) = (quoted(a.host@), quoted(b.host@));
        let (pa, pb) = (quoted(a.protocol@), quoted(b.protocol@));
        let (oa, ob) = (decimal(a.owner as nat), decimal(b.owner as nat));
        let (ma, mb) = (a.members as nat, b.members as nat);
        reveal_strlit(" name=");
        reveal_strlit(" owner=");
        lemma_line_parts(now, event, a, na, ha, pa);
        lemma_line_parts(now, event, b, nb, hb, pb);
        let (a5, b5) = (decimal(ma) + (" owner="@ + oa), decimal(mb) + (" owner="@ + ob));
        let (a4, b4) = (pa + (" members="@ + a5), pb + (" members="@ + b5));
        let (a3, b3) = (ha + (" protocol="@ + a4), hb + (" protocol="@ + b4));
        let (a2, b2) = (na + (" host="@ + a3), nb + (" host="@ + b3));
        let a1 = decimal(a.id as nat) + (" name="@ + a2);
        let b1 = decimal(b.id as nat) + (" name="@ + b2);
        lemma_same_start(now + " "@ + event + " id="@, a1, b1);
        lemma_number_ends(a.id as nat, a2, b.id as nat, b2, " name="@);
        lemma_quotation_ends(na, " host="@ + a3, nb, " host="@ + b3);
        lemma_same_start(" host="@, a3, b3);
        lemma_quotation_ends(ha, " protocol="@ + a4, hb, " protocol="@ + b4);
        lemma_same_start(" protocol="@, a4, b4);
        lemma_quotation_ends(pa, " members="@ + a5, pb, " members="@ + b5);
        lemma_same_start(" members="@, a5, b5);
        lemma_number_ends(ma, oa, mb, ob, " owner="@);
        law_decimal_value(a.owner as nat);
        law_decimal_value(b.owner as nat);
    }
}

/// Text on one line, with the line feed that ends it.
pub open spec fn is_ended_row(s: Seq<char>) -> bool {
    s.len() > 0 && s.last() == '\n' && is_row(s.drop_last())
}

/// The row that is appended to the history log for an event at the time `now`.
pub fn event_row(now: &str, kind: EventKind, lobby: &Lobby) -> (r: String)
    ensures
        r@ == log_line(now@, kind.text(), *lobby) + "\n"@,
        is_row(now@) ==> is_ended_row(r@),
{
    let mut out = lobby_log_line(now, kind.name(), lobby);
    let ghost line = out@;
    out.append("\n");
    proof {
        reveal_strlit("\n");
        reveal_strlit("created");
        reveal_strlit("updated");
        reveal_strlit("deleted");
        assert(out@.drop_last() == line);
    }
    out
}

/// The row that is appended to the history log for an event right now.
pub fn event_row_now(kind: EventKind, lobby: &Lobby) -> (r: String)
    ensures
        exists|secs: u64|
            clock_shows(secs) && r@ == log_line(
                #[trigger] utc_text(secs as nat),
                kind.text(),
                *lobby,
            ) + "\n"@,
        is_ended_row(r@),
{
    let now = utc_now();
    proof {
        let secs = choose|secs: u64|
            clock_shows(secs) && now@ == #[trigger] utc_text(secs as nat);
        law_utc_text_is_row(secs as nat);
    }
    event_row(now.as_str(), kind, lobby)
}

/// The row that marks the start of the process in the history log.
pub fn start_row(now: &str, pid: u32) -> (r: String)
    ensures
        r@ == now@ + " start watcher pid="@ + decimal(pid as nat) + "\n"@,
        is_row(now@) ==> is_ended_row(r@),
{
    let mut out = now.to_owned();
    out.append(" start watcher pid=");
    append_decimal(&mut out, pid as u64);
    let ghost line = out@;
    out.append("\n");
    proof {
        reveal_strlit("\n");
        reveal_strlit(" start watcher pid=");
        lemma_decimal_is_row(pid as nat);
        assert(out@.drop_last() == line);
    }
    out
}

/// The name of each event, the sentence that goes with it, and whether it is kept.
pub proof fn law_event_texts(kind: EventKind, name: &'static str, message: String, logged: bool)
    requires
        call_ensures(EventKind::name, (kind,), name),
        call_ensures(EventKind::message, (kind,), message),
        call_ensures(EventKind::is_logged, (kind,), logged),
    ensures
        kind is Created ==> name@ == "created"@ && logged,
        kind is Updated ==> name@ == "updated"@ && !logged,
        kind is Deleted ==> name@ == "deleted"@ && logged,
        message@ == "Timestone lobby "@ + name@,
{
}

/// A line around quoted texts: after the time and the event each field behind its label, the
/// numbers as they are written in base ten.
pub proof fn law_joined_line(
    now: &str,
    event: &str,
    lobby: &Lobby,
    name: &str,
    host: &str,
    protocol: &str,
    r: String,
    id: Seq<char>,
    members: Seq<char>,
    owner: Seq<char>,
)
    requires
        call_ensures(join_log_line, (now, event, lobby, name, host, protocol), r),
        writes(id, lobby.id as nat),
        writes(members, lobby.members as nat),
        writes(owner, lobby.owner as nat),
    ensures
        r@ == now@ + " "@ + event@ + " id="@ + id + " name="@ + name@ + " host="@ + host@
            + " protocol="@ + protocol@ + " members="@ + members + " owner="@ + owner,
{
    lemma_written(id, lobby.id as nat);
    lemma_written(members, lobby.members as nat);
    lemma_written(owner, lobby.owner as nat);
}

/// A lobby's line is the one around the quotations of its three texts.
pub proof fn law_line_quotes_the_texts(
    now: &str,
    event: &str,
    lobby: &Lobby,
    name: &str,
    host: &str,
    protocol: &str,
    joined: String,
    r: String,
)
    requires
        name@ == quoted(lobby.name@),
        host@ == quoted(lobby.host@),
        protocol@ == quoted(lobby.protocol@),
        call_ensures(join_log_line, (now, event, lobby, name, host, protocol), joined),
        call_ensures(lobby_log_line, (now, event, lobby), r),
    ensures
        r@ == joined@,
        log_line(now@, event@, *lobby) == joined@,
{
}

/// The row of an event is the lobby's line under the event's name, and a line feed.
pub proof fn law_event_row(
    now: &str,
    kind: EventKind,
    name: &'static str,
    lobby: &Lobby,
    line: String,
    r: String,
)
    requires
        call_ensures(EventKind::name, (kind,), name),
        call_ensures(lobby_log_line, (now, name, lobby), line),
        call_ensures(event_row, (now, kind, lobby), r),
    ensures
        r@ == line@.push('\n'),
{
    reveal_strlit("\n");
}

/// The row of an event right now carries the timestamp of a second that the clock can show.
pub proof fn law_event_row_now(kind: EventKind, name: &'static str, lobby: &Lobby, r: String)
    requires
        call_ensures(EventKind::name, (kind,), name),
        call_ensures(event_row_now, (kind, lobby), r),
    ensures
        exists|secs: u64|
            clock_shows(secs) && r@ == log_line(
                #[trigger] utc_text(secs as nat),
                name@,
                *lobby,
            ).push('\n'),
{
    reveal_strlit("\n");
    let secs = choose|secs: u64|
        clock_shows(secs) && r@ == log_line(
            #[trigger] utc_text(secs as nat),
            kind.text(),
            *lobby,
        ) + "\n"@;
    assert(r@ == log_line(utc_text(secs as nat), name@, *lobby).push('\n'));
}

/// The row that marks a start: the time, what has started, and the process number as it is
/// written in base ten.
pub proof fn law_start_row(now: &str, pid: u32, r: String, digits: Seq<char>)
    requires
        call_ensures(start_row, (now, pid), r),
        writes(digits, pid as nat),
    ensures
        r@ == (now@ + " start watcher pid="@ + digits).push('\n'),
{
    reveal_strlit("\n");
    lemma_written(digits, pid as nat);
}

/// Of two lines that were written for one time and one event, each tells its own lobby: they are
/// equal exactly when no field differs.
pub proof fn law_written_lines_tell_lobbies_apart(
    now: &str,
    event: &str,
    a: &Lobby,
    b: &Lobby,
    line_a: String,
    line_b: String,
)
    requires
        call_ensures(lobby_log_line, (now, event, a), line_a),
        call_ensures(lobby_log_line, (now, event, b), line_b),
    ensures
        line_a@ == line_b@ <==> a.id == b.id && a.name@ == b.name@ && a.host@ == b.host@
            && a.protocol@ == b.protocol@ && a.members == b.members && a.owner == b.owner,
{
    law_lines_tell_lobbies_apart(now@, event@, *a, *b);
}

/// A row of the log is one line, whatever the players chose for names: it ends with a line feed,
/// and in front of that there is no other one, nor any control character.
pub proof fn law_row_is_one_line(kind: EventKind, lobby: &Lobby, r: String)
    requires
        call_ensures(event_row_now, (kind, lobby), r),
    ensures
        r@.len() > 0,
        r@[r@.len() - 1] == '\n',
        forall|i: int|
            0 <= i < r@.len() - 1 ==> {
                let n = #[trigger] r@[i] as u32;
                n >= 32 && !(127 <= n <= 159) && n != 8232 && n != 8233
            },
{
    assert forall|i: int| 0 <= i < r@.len() - 1 implies {
        let n = #[trigger] r@[i] as u32;
        n >= 32 && !(127 <= n <= 159) && n != 8232 && n != 8233
    } by {
        assert(r@.drop_last()[i] == r@[i]);
    }
}

/// A lobby name of printable ASCII characters without quotes and backslashes is shown as it is, in
/// double quotes.
pub proof fn law_common_names_are_kept(now: &str, event: &str, lobby: &Lobby, line: String)
    requires
        call_ensures(lobby_log_line, (now, event, lobby), line),
        forall|i: int|
            0 <= i < lobby.name@.len() ==> {
                let c = #[trigger] lobby.name@[i];
                ' ' <= c && c <= '~' && c != '"' && c != '\'' && c != '\\'
            },
    ensures
        quoted(lobby.name@) == seq!['"'] + lobby.name@ + seq!['"'],
{
    lemma_nothing_to_escape(lobby.name@);
}

proof fn lemma_nothing_to_escape(s: Seq<char>)
    requires
        forall|i: int|
            0 <= i < s.len() ==> {
                let c = #[trigger] s[i];
                ' ' <= c && c <= '~' && c != '"' && c != '\\'
            },
    ensures
        escaped(s) == s,
    decreases s.len(),
{
    if s.len() > 0 {
        let rest = s.drop_last();
        assert forall|i: int| 0 <= i < rest.len() implies {
            let c = #[trigger] rest[i];
            ' ' <= c && c <= '~' && c != '"' && c != '\\'
        } by {
            assert(rest[i] == s[i]);
        }
        lemma_nothing_to_escape(rest);
        assert(s[s.len() - 1] == s.last());
        assert(s == rest + seq![s.last()]);
    }
}

} // verus!
