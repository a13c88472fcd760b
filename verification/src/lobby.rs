//! A lobby as one poll sees it.
use vstd::prelude::*;

verus! {

/// One open lobby.
#[derive(Debug)]
pub struct Lobby {
    pub id: u64,
    pub name: String,
    pub host: String,
    pub protocol: String,
    pub members: usize,
    /// SteamID64 of the lobby owner: join links need it.
    pub owner: u64,
}

impl Clone for Lobby {
    fn clone(&self) -> (r: Self)
        ensures
            r == *self,
    {
        Lobby {
            id: self.id,
            name: self.name.clone(),
            host: self.host.clone(),
            protocol: self.protocol.clone(),
            members: self.members,
            owner: self.owner,
        }
    }
}

/// The text of a lobby data entry; an entry that is not set reads as empty.
pub open spec fn entry_text(entry: Option<String>) -> Seq<char> {
    match entry {
        Some(s) => s@,
        None => Seq::empty(),
    }
}

fn entry_or_empty(entry: Option<String>) -> (r: String)
    ensures
        r@ == entry_text(entry),
{
    match entry {
        Some(s) => s,
        None => String::new(),
    }
}

impl Lobby {
    /// Puts together what the matchmaking service says of a lobby: its data
    /// entries `name`, `username` and `protocol`, its member count and its owner.
    pub fn read(
        id: u64,
        name: Option<String>,
        username: Option<String>,
        protocol: Option<String>,
        members: usize,
        owner: u64,
    ) -> (r: Lobby)
        ensures
            r.id == id,
            r.name@ == entry_text(name),
            r.host@ == entry_text(username),
            r.protocol@ == entry_text(protocol),
            r.members == members,
            r.owner == owner,
    {
        Lobby {
            id,
            name: entry_or_empty(name),
            host: entry_or_empty(username),
            protocol: entry_or_empty(protocol),
            members,
            owner,
        }
    }

    /// Equal in everything but the id.
    pub open spec fn is_same(self, other: Lobby) -> bool {
        &&& self.name@ == other.name@
        &&& self.host@ == other.host@
        &&& self.protocol@ == other.protocol@
        &&& self.members == other.members
        &&& self.owner == other.owner
    }

    /// Structural comparison of two sightings under one id.
    pub fn same(&self, other: &Lobby) -> (r: bool)
        ensures
            r == self.is_same(*other),
    {
        self.name == other.name && self.host == other.host && self.protocol == other.protocol
            && self.members == other.members && self.owner == other.owner
    }
}

/// Every part of what the service says goes into the lobby, each in its own place; an entry
/// that is not set leaves its text empty.
pub proof fn law_read_keeps_every_part(
    id: u64,
    name: Option<String>,
    username: Option<String>,
    protocol: Option<String>,
    members: usize,
    owner: u64,
    r: Lobby,
)
    requires
        call_ensures(Lobby::read, (id, name, username, protocol, members, owner), r),
    ensures
        r.id == id && r.members == members && r.owner == owner,
        name matches Some(s) ==> r.name@ == s@,
        name is None ==> r.name@.len() == 0,
        username matches Some(s) ==> r.host@ == s@,
        username is None ==> r.host@.len() == 0,
        protocol matches Some(s) ==> r.protocol@ == s@,
        protocol is None ==> r.protocol@.len() == 0,
{
}

/// Two sightings are the same exactly when no field but the id has changed.
pub proof fn law_same_is_no_change(a: &Lobby, b: &Lobby, r: bool)
    requires
        call_ensures(Lobby::same, (a, b), r),
    ensures
        !r <==> (a.name@ != b.name@ || a.host@ != b.host@ || a.protocol@ != b.protocol@ || a.members
            != b.members || a.owner != b.owner),
{
}

} // verus!
