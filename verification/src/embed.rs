//! The embed that lists the open lobbies, each with a link to join it.
use poise::serenity_prelude::{CreateEmbed, CreateEmbedFooter};
use vstd::prelude::*;
use vstd::string::*;
use crate::card::CARD_TITLE;
use crate::lobby::Lobby;
use crate::settings::APP_ID;
use crate::text::{
    append_decimal, decimal, law_decimal_value, lemma_digits_end, lemma_same_start, lemma_written,
    writes,
};

verus! {

pub const JOIN_BASE_URL: &'static str = "https://mm.b.hero.rehab/joinlobby";

/// The embed's colour, as 0xRRGGBB.
pub const EMBED_COLOR: u32 = 0x9b59b6;

/// The most lobbies that get a field of their own.
pub const MAX_FIELDS: usize = 25;

/// The join link of a lobby: the landing page, the game, the lobby and its owner.
pub open spec fn link_text(l: Lobby) -> Seq<char> {
    JOIN_BASE_URL@ + "/"@ + decimal(APP_ID as nat) + "/"@ + decimal(l.id as nat) + "/"@ + decimal(
        l.owner as nat,
    )
}

/// `https://mm.b.hero.rehab/joinlobby/<appid>/<lobby_id>/<owner_steamid>`: the join-link
/// landing page for the lobby on the matchmaking service.
pub fn join_link(l: &Lobby) -> (r: String)
    ensures
        r@ == link_text(*l),
{
    let mut out = JOIN_BASE_URL.to_owned();
    out.append("/");
    append_decimal(&mut out, APP_ID as u64);
    out.append("/");
    append_decimal(&mut out, l.id);
    out.append("/");
    append_decimal(&mut out, l.owner);
    out
}

/// `Open Timestone Lobbies - <count>`.
pub open spec fn mm_title(count: nat) -> Seq<char> {
    CARD_TITLE@ + " - "@ + decimal(count)
}

/// The time of the update as a tag that the client renders as a running clock, behind
/// a notice where there is no lobby.
pub open spec fn mm_description(count: nat, updated_unix: nat) -> Seq<char> {
    let updated = "Updated <t:"@ + decimal(updated_unix) + ":R>"@;
    if count == 0 {
        "No open lobbies right now. Try again in a bit.\n"@ + updated
    } else {
        updated
    }
}

/// `poll #<index>`.
pub open spec fn mm_footer(poll_index: nat) -> Seq<char> {
    "poll #"@ + decimal(poll_index)
}

/// Name and value of a lobby's field.
pub open spec fn lobby_field(l: Lobby) -> (Seq<char>, Seq<char>) {
    (
        l.name@ + " - "@ + l.host@,
        "protocol "@ + l.protocol@ + " • "@ + decimal(l.members as nat)
            + "/8 players\n[Join lobby]("@ + link_text(l) + ")"@,
    )
}

/// Name and value of the field that stands for the lobbies without one.
pub open spec fn more_field(count: nat) -> (Seq<char>, Seq<char>) {
    (
        "+"@ + decimal((count - MAX_FIELDS) as nat) + " more"@,
        "Showing the first 25 lobbies."@,
    )
}

/// The fields of the embed: one for each of the first lobbies, and one for all others.
pub open spec fn mm_fields(lobbies: Seq<Lobby>) -> Seq<(Seq<char>, Seq<char>)> {
    if lobbies.len() <= MAX_FIELDS {
        lobbies.map_values(|l: Lobby| lobby_field(l))
    } else {
        lobbies.take(MAX_FIELDS as int).map_values(|l: Lobby| lobby_field(l)).push(
            more_field(lobbies.len()),
        )
    }
}

/// A field below the description.
pub struct EmbedField {
    pub name: String,
    pub value: String,
}

impl View for EmbedField {
    type V = (Seq<char>, Seq<char>);

    open spec fn view(&self) -> (Seq<char>, Seq<char>) {
        (self.name@, self.value@)
    }
}

/// The text of an embed.
pub struct MmEmbed {
    pub title: String,
    pub description: String,
    pub fields: Vec<EmbedField>,
    pub footer: String,
}

impl MmEmbed {
    /// The fields' names and values.
    pub open spec fn field_texts(self) -> Seq<(Seq<char>, Seq<char>)> {
        self.fields@.map_values(|f: EmbedField| f@)
    }
}

fn mm_lobby_field(l: &Lobby) -> (r: EmbedField)
    ensures
        r@ == lobby_field(*l),
{
    let mut name = l.name.clone();
    name.append(" - ");
    name.append(l.host.as_str());
    let mut value = "protocol ".to_owned();
    value.append(l.protocol.as_str());
    value.append(" • ");
    append_decimal(&mut value, l.members as u64);
    value.append("/8 players\n[Join lobby](");
    value.append(join_link(l).as_str());
    value.append(")");
    EmbedField { name, value }
}

fn mm_all_fields(lobbies: &[Lobby]) -> (r: Vec<EmbedField>)
    ensures
        r@.map_values(|f: EmbedField| f@) == mm_fields(lobbies@),
{
    let mut fields: Vec<EmbedField> = Vec::new();
    let mut i: usize = 0;
    while i < lobbies.len() && i < MAX_FIELDS
        invariant
            i <= lobbies@.len(),
            i <= MAX_FIELDS,
            fields@.map_values(|f: EmbedField| f@) == lobbies@.take(i as int).map_values(
                |l: Lobby| lobby_field(l),
            ),
        decreases lobbies@.len() - i,
    {
        let ghost before = fields@;
        fields.push(mm_lobby_field(&lobbies[i]));
        proof {
            assert(fields@.map_values(|f: EmbedField| f@) == before.map_values(
                |f: EmbedField| f@,
            ).push(lobby_field(lobbies@[i as int])));
            assert(lobbies@.take(i + 1) == lobbies@.take(i as int).push(lobbies@[i as int]));
            assert(lobbies@.take(i + 1).map_values(|l: Lobby| lobby_field(l)) == lobbies@.take(
                i as int,
            ).map_values(|l: Lobby| lobby_field(l)).push(lobby_field(lobbies@[i as int])));
        }
        i += 1;
    }
    if lobbies.len() > MAX_FIELDS {
        let mut name = "+".to_owned();
        append_decimal(&mut name, (lobbies.len() - MAX_FIELDS) as u64);
        name.append(" more");
        let ghost before = fields@;
        fields.push(EmbedField { name, value: "Showing the first 25 lobbies.".to_owned() });
        assert(fields@.map_values(|f: EmbedField| f@) == before.map_values(
            |f: EmbedField| f@,
        ).push(more_field(lobbies@.len())));
    } else {
        assert(lobbies@.take(i as int) == lobbies@);
    }
    fields
}

/// The text of the embed for the given lobbies, poll and time of update.
pub fn mm_embed(lobbies: &[Lobby], poll_index: u64, updated_unix: u64) -> (r: MmEmbed)
    ensures
        r.title@ == mm_title(lobbies@.len()),
        r.description@ == mm_description(lobbies@.len(), updated_unix as nat),
        r.field_texts() == mm_fields(lobbies@),
        r.footer@ == mm_footer(poll_index as nat),
{
    let mut title = CARD_TITLE.to_owned();
    title.append(" - ");
    append_decimal(&mut title, lobbies.len() as u64);
    let mut updated = "Updated <t:".to_owned();
    append_decimal(&mut updated, updated_unix);
    updated.append(":R>");
    let description = if lobbies.len() == 0 {
        let mut notice = "No open lobbies right now. Try again in a bit.\n".to_owned();
        notice.append(updated.as_str());
        notice
    } else {
        updated
    };
    let fields = mm_all_fields(lobbies);
    let mut footer = "poll #".to_owned();
    append_decimal(&mut footer, poll_index);
    MmEmbed { title, description, fields, footer }
}

/// serenity's embed, ready to be sent.
#[verifier::external_type_specification]
#[verifier::external_body]
pub struct ExCreateEmbed(CreateEmbed);

/// The title that is set on an embed.
pub uninterp spec fn embed_title(e: CreateEmbed) -> Option<Seq<char>>;

/// The colour that is set on an embed.
pub uninterp spec fn embed_color(e: CreateEmbed) -> Option<u32>;

/// The description that is set on an embed.
pub uninterp spec fn embed_description(e: CreateEmbed) -> Option<Seq<char>>;

/// The fields of an embed: name, value, and whether it is shown inline.
pub uninterp spec fn embed_fields(e: CreateEmbed) -> Seq<(Seq<char>, Seq<char>, bool)>;

/// The text of the footer that is set on an embed.
pub uninterp spec fn embed_footer(e: CreateEmbed) -> Option<Seq<char>>;

/// `CreateEmbed::new`: an embed on which nothing is set yet and that has no fields.
#[verifier::external_body]
fn empty_embed() -> (r: CreateEmbed)
    ensures
        embed_title(r) == None::<Seq<char>>,
        embed_color(r) == None::<u32>,
        embed_description(r) == None::<Seq<char>>,
        embed_fields(r) == Seq::<(Seq<char>, Seq<char>, bool)>::empty(),
        embed_footer(r) == None::<Seq<char>>,
{
    CreateEmbed::new()
}

/// `CreateEmbed::title`: sets the title and keeps the rest.
#[verifier::external_body]
fn with_title(e: CreateEmbed, title: &str) -> (r: CreateEmbed)
    ensures
        embed_title(r) == Some(title@),
        embed_color(r) == embed_color(e),
        embed_description(r) == embed_description(e),
        embed_fields(r) == embed_fields(e),
        embed_footer(r) == embed_footer(e),
{
    e.title(title)
}

/// `CreateEmbed::color`: sets the colour and keeps the rest.
#[verifier::external_body]
fn with_color(e: CreateEmbed, color: u32) -> (r: CreateEmbed)
    ensures
        embed_title(r) == embed_title(e),
        embed_color(r) == Some(color),
        embed_description(r) == embed_description(e),
        embed_fields(r) == embed_fields(e),
        embed_footer(r) == embed_footer(e),
{
    e.color(color)
}

/// `CreateEmbed::description`: sets the description and keeps the rest.
#[verifier::external_body]
fn with_description(e: CreateEmbed, description: &str) -> (r: CreateEmbed)
    ensures
        embed_title(r) == embed_title(e),
        embed_color(r) == embed_color(e),
        embed_description(r) == Some(description@),
        embed_fields(r) == embed_fields(e),
        embed_footer(r) == embed_footer(e),
{
    e.description(description)
}

/// `CreateEmbed::field`: adds a field behind those that are there and keeps the rest.
#[verifier::external_body]
fn with_field(e: CreateEmbed, name: &str, value: &str, inline: bool) -> (r: CreateEmbed)
    ensures
        embed_title(r) == embed_title(e),
        embed_color(r) == embed_color(e),
        embed_description(r) == embed_description(e),
        embed_fields(r) == embed_fields(e).push((name@, value@, inline)),
        embed_footer(r) == embed_footer(e),
{
    e.field(name, value, inline)
}

/// `CreateEmbed::footer` with a `CreateEmbedFooter` of the given text: sets the footer
/// and keeps the rest.
#[verifier::external_body]
fn with_footer(e: CreateEmbed, text: &str) -> (r: CreateEmbed)
    ensures
        embed_title(r) == embed_title(e),
        embed_color(r) == embed_color(e),
        embed_description(r) == embed_description(e),
        embed_fields(r) == embed_fields(e),
        embed_footer(r) == Some(text@),
{
    e.footer(CreateEmbedFooter::new(text))
}

/// The fields as an embed holds them: none of them is inline.
pub open spec fn block_fields(fields: Seq<(Seq<char>, Seq<char>)>) -> Seq<
    (Seq<char>, Seq<char>, bool),
> {
    fields.map_values(|f: (Seq<char>, Seq<char>)| (f.0, f.1, false))
}

/// Makes the embed that the chat service takes.
pub fn create_embed(embed: &MmEmbed) -> (e: CreateEmbed)
    ensures
        embed_title(e) == Some(embed.title@),
        embed_color(e) == Some(EMBED_COLOR),
        embed_description(e) == Some(embed.description@),
        embed_fields(e) == block_fields(embed.field_texts()),
        embed_footer(e) == Some(embed.footer@),
{
    let mut e = with_title(empty_embed(), embed.title.as_str());
    e = with_color(e, EMBED_COLOR);
    e = with_description(e, embed.description.as_str());
    let mut i: usize = 0;
    while i < embed.fields.len()
        invariant
            i <= embed.fields.len(),
            embed_title(e) == Some(embed.title@),
            embed_color(e) == Some(EMBED_COLOR),
            embed_description(e) == Some(embed.description@),
            embed_fields(e) == block_fields(embed.field_texts()).take(i as int),
        decreases embed.fields.len() - i,
    {
        let field = &embed.fields[i];
        e = with_field(e, field.name.as_str(), field.value.as_str(), false);
        i += 1;
    }
    with_footer(e, embed.footer.as_str())
}

/// The embed for `/mm` and the live card: one field per open lobby, each with a join
/// link. The description carries the time of the update.
pub fn build_mm_embed(lobbies: &[Lobby], poll_index: u64, updated_unix: u64) -> (e: CreateEmbed)
    ensures
        embed_title(e) == Some(mm_title(lobbies@.len())),
        embed_color(e) == Some(EMBED_COLOR),
        embed_description(e) == Some(mm_description(lobbies@.len(), updated_unix as nat)),
        embed_fields(e) == block_fields(mm_fields(lobbies@)),
        embed_footer(e) == Some(mm_footer(poll_index as nat)),
{
    create_embed(&mm_embed(lobbies, poll_index, updated_unix))
}

/// Every title that is built is one by which a card is found again.
pub proof fn law_title_is_a_cards(count: nat)
    ensures
        CARD_TITLE@.is_prefix_of(mm_title(count)),
{
    assert(mm_title(count).take(CARD_TITLE@.len() as int) == CARD_TITLE@);
}

/// One field per lobby up to the limit, one more for all the rest, and so never more
/// than one above the limit.
pub proof fn law_field_count(lobbies: Seq<Lobby>)
    ensures
        mm_fields(lobbies).len() == (if lobbies.len() <= MAX_FIELDS {
            lobbies.len()
        } else {
            (MAX_FIELDS + 1) as nat
        }),
        forall|i: int|
            0 <= i < lobbies.len() && i < MAX_FIELDS ==> #[trigger] mm_fields(lobbies)[i]
                == lobby_field(lobbies[i]),
{
}

/// The field of a lobby holds the lobby's join link.
pub proof fn law_field_holds_link(l: Lobby)
    ensures
        exists|at: int|
            0 <= at <= lobby_field(l).1.len() - link_text(l).len() && #[trigger] lobby_field(
                l,
            ).1.subrange(at, at + link_text(l).len()) == link_text(l),
{
    let before = "protocol "@ + l.protocol@ + " • "@ + decimal(l.members as nat)
        + "/8 players\n[Join lobby]("@;
    let at: int = before.len() as int;
    assert(lobby_field(l).1 == before + link_text(l) + ")"@);
    assert(lobby_field(l).1.subrange(at, at + link_text(l).len()) == link_text(l));
}

/// Lobbies with one join link have one id and one owner.
pub proof fn law_links_tell_lobbies_apart(a: Lobby, b: Lobby)
    requires
        link_text(a) == link_text(b),
    ensures
        a.id == b.id,
        a.owner == b.owner,
{
    reveal_strlit("/");
    law_decimal_value(a.id as nat);
    law_decimal_value(b.id as nat);
    law_decimal_value(a.owner as nat);
    law_decimal_value(b.owner as nat);
    let base = JOIN_BASE_URL@ + "/"@ + decimal(APP_ID as nat) + "/"@;
    let (ia, ib) = (decimal(a.id as nat), decimal(b.id as nat));
    let (oa, ob) = (decimal(a.owner as nat), decimal(b.owner as nat));
    assert(link_text(a) == base + (ia + ("/"@ + oa)));
    assert(link_text(b) == base + (ib + ("/"@ + ob)));
    lemma_same_start(base, ia + ("/"@ + oa), ib + ("/"@ + ob));
    lemma_digits_end(ia, "/"@ + oa, ib, "/"@ + ob);
    lemma_same_start("/"@, oa, ob);
}

/// The join link: the landing page with the game's number, then the lobby's id and its
/// owner's as they are written in base ten.
pub proof fn law_join_link(l: &Lobby, r: String, id: Seq<char>, owner: Seq<char>)
    requires
        call_ensures(join_link, (l,), r),
        writes(id, l.id as nat),
        writes(owner, l.owner as nat),
    ensures
        r@ == "https://mm.b.hero.rehab/joinlobby/357190/"@ + id + "/"@ + owner,
        link_text(*l) == r@,
{
    lemma_written(id, l.id as nat);
    lemma_written(owner, l.owner as nat);
    lemma_join_page();
}

proof fn lemma_join_page()
    ensures
        JOIN_BASE_URL@ + "/"@ + decimal(APP_ID as nat) + "/"@
            == "https://mm.b.hero.rehab/joinlobby/357190/"@,
{
    reveal_strlit("https://mm.b.hero.rehab/joinlobby");
    reveal_strlit("https://mm.b.hero.rehab/joinlobby/357190/");
    reveal_strlit("/");
    reveal_with_fuel(decimal, 6);
    assert(decimal(357_190) =~= seq!['3', '5', '7', '1', '9', '0']);
    assert(JOIN_BASE_URL@ + "/"@ + decimal(APP_ID as nat) + "/"@
        =~= "https://mm.b.hero.rehab/joinlobby/357190/"@);
}

/// A lobby's field is named after the lobby and its host. Its value tells the protocol, the
/// number of members right in front of the eight that a lobby holds, and the join link.
pub proof fn law_field_tells_the_lobby(l: Lobby, members: Seq<char>)
    requires
        writes(members, l.members as nat),
    ensures
        lobby_field(l).0 == l.name@ + " - "@ + l.host@,
        lobby_field(l).1 == "protocol "@ + l.protocol@ + " • "@ + members
            + "/8 players\n[Join lobby]("@ + link_text(l) + ")"@,
{
    lemma_written(members, l.members as nat);
}

/// Lobbies of one protocol with one join link have equal fields only if they have as many
/// members.
pub proof fn law_fields_tell_members_apart(a: Lobby, b: Lobby)
    requires
        a.protocol@ == b.protocol@,
        a.id == b.id,
        a.owner == b.owner,
    ensures
        lobby_field(a).1 == lobby_field(b).1 <==> a.members == b.members,
{
    if lobby_field(a).1 == lobby_field(b).1 {
        let start = "protocol "@ + a.protocol@ + " • "@;
        let end = "/8 players\n[Join lobby]("@ + link_text(a) + ")"@;
        let (ma, mb) = (decimal(a.members as nat), decimal(b.members as nat));
        reveal_strlit("/8 players\n[Join lobby](");
        law_decimal_value(a.members as nat);
        law_decimal_value(b.members as nat);
        assert(lobby_field(a).1 == start + (ma + end));
        assert(lobby_field(b).1 == start + (mb + end));
        lemma_same_start(start, ma + end, mb + end);
        assert(end[0] == '/');
        lemma_digits_end(ma, end, mb, end);
    }
}

/// What the embed says: the number of lobbies in the title, the time of the update in the
/// description, behind a notice when there is no lobby, the poll's number in the footer, and
/// for each of the first 25 lobbies, in their order, a field of its own. Where there are more,
/// one last field says how many.
pub proof fn law_embed(
    lobbies: &[Lobby],
    poll_index: u64,
    updated_unix: u64,
    e: CreateEmbed,
    count: Seq<char>,
    poll: Seq<char>,
    updated: Seq<char>,
)
    requires
        call_ensures(build_mm_embed, (lobbies, poll_index, updated_unix), e),
        writes(count, lobbies@.len()),
        writes(poll, poll_index as nat),
        writes(updated, updated_unix as nat),
    ensures
        embed_title(e) == Some("Open Timestone Lobbies"@ + " - "@ + count),
        embed_color(e) == Some(10_181_046u32),
        lobbies@.len() > 0 ==> embed_description(e) == Some("Updated <t:"@ + updated + ":R>"@),
        lobbies@.len() == 0 ==> embed_description(e) == Some(
            "No open lobbies right now. Try again in a bit.\n"@ + ("Updated <t:"@ + updated
                + ":R>"@),
        ),
        embed_footer(e) == Some("poll #"@ + poll),
        lobbies@.len() <= 25 ==> embed_fields(e).len() == lobbies@.len(),
        lobbies@.len() > 25 ==> embed_fields(e).len() == 26,
        forall|i: int|
            0 <= i < lobbies@.len() && i < 25 ==> #[trigger] embed_fields(e)[i] == (
                lobby_field(lobbies@[i]).0,
                lobby_field(lobbies@[i]).1,
                false,
            ),
{
    lemma_written(count, lobbies@.len());
    lemma_written(poll, poll_index as nat);
    lemma_written(updated, updated_unix as nat);
}

/// The last field of an embed that cannot show all lobbies says how many it leaves out, and
/// those that have a field and those that are left out are together all of them.
pub proof fn law_rest_is_counted(
    lobbies: &[Lobby],
    poll_index: u64,
    updated_unix: u64,
    e: CreateEmbed,
    left: nat,
    digits: Seq<char>,
)
    requires
        call_ensures(build_mm_embed, (lobbies, poll_index, updated_unix), e),
        lobbies@.len() > 25,
        writes(digits, left),
        25 + left == lobbies@.len(),
    ensures
        embed_fields(e).last() == (
            "+"@ + digits + " more"@,
            "Showing the first 25 lobbies."@,
            false,
        ),
{
    lemma_written(digits, left);
}

/// The embed that is sent has the texts of the one that was put together, its fields one below
/// the other.
pub proof fn law_created_embed(embed: &MmEmbed, e: CreateEmbed)
    requires
        call_ensures(create_embed, (embed,), e),
    ensures
        embed_title(e) == Some(embed.title@),
        embed_color(e) == Some(10_181_046u32),
        embed_description(e) == Some(embed.description@),
        embed_footer(e) == Some(embed.footer@),
        embed_fields(e).len() == embed.fields@.len(),
        forall|i: int|
            0 <= i < embed.fields@.len() ==> #[trigger] embed_fields(e)[i] == (
                embed.fields@[i].name@,
                embed.fields@[i].value@,
                false,
            ),
{
}

/// The texts that are put together are those of the embed that is sent for the same lobbies,
/// poll and time.
pub proof fn law_texts_are_the_embeds(
    lobbies: &[Lobby],
    poll_index: u64,
    updated_unix: u64,
    r: MmEmbed,
    e: CreateEmbed,
)
    requires
        call_ensures(mm_embed, (lobbies, poll_index, updated_unix), r),
        call_ensures(build_mm_embed, (lobbies, poll_index, updated_unix), e),
    ensures
        embed_title(e) == Some(r.title@),
        embed_description(e) == Some(r.description@),
        embed_footer(e) == Some(r.footer@),
        embed_fields(e).len() == r.fields@.len(),
        forall|i: int|
            0 <= i < r.fields@.len() ==> #[trigger] embed_fields(e)[i] == (
                r.fields@[i].name@,
                r.fields@[i].value@,
                false,
            ),
{
    assert(r.field_texts() == mm_fields(lobbies@));
    assert forall|i: int| 0 <= i < r.fields@.len() implies #[trigger] embed_fields(e)[i] == (
        r.fields@[i].name@,
        r.fields@[i].value@,
        false,
    ) by {
        assert(r.field_texts()[i] == r.fields@[i]@);
    }
}

} // verus!
