//! What the environment variables ask for.
use vstd::prelude::*;
use crate::text::{is_blank, is_blank_text, is_white_space, parse_id, parsed_id, ParseIdError};

verus! {

/// Ultimate Marvel vs. Capcom 3 on Steam.
pub const APP_ID: u32 = 357190;

/// The most lobbies that one search asks for.
pub const MAX_RESULTS: u64 = 50;

/// The log file when the environment names none.
pub const DEFAULT_LOBBY_LOG: &'static str = "lobby-watcher.log";

/// Where the history log is written: where the variable says, or in the default
/// file when it is not set or blank.
pub fn lobby_log_path(var: Option<String>) -> (r: String)
    ensures
        r@ == (match var {
            Some(path) => if is_blank_text(path@) {
                DEFAULT_LOBBY_LOG@
            } else {
                path@
            },
            None => DEFAULT_LOBBY_LOG@,
        }),
{
    match var {
        Some(path) => if is_blank(path.as_str()) {
            DEFAULT_LOBBY_LOG.to_owned()
        } else {
            path
        },
        None => DEFAULT_LOBBY_LOG.to_owned(),
    }
}

/// Where the bot's commands are registered.
#[derive(Clone, Copy, Debug, PartialEq, Eq, Structural)]
pub enum Registration {
    Global,
    Guild(u64),
}

/// A guild id registers the commands in that guild; without one they are global.
pub fn registration(var: Option<&str>) -> (r: Result<Registration, ParseIdError>)
    ensures
        r == (match var {
            Some(guild) => match parsed_id(guild@) {
                Ok(id) => Ok(Registration::Guild(id)),
                Err(e) => Err(e),
            },
            None => Ok(Registration::Global),
        }),
{
    match var {
        Some(guild) => match parse_id(guild) {
            Ok(id) => Ok(Registration::Guild(id)),
            Err(e) => Err(e),
        },
        None => Ok(Registration::Global),
    }
}

/// What the environment says of the lobby card's channel.
#[derive(Clone, Copy, Debug, PartialEq, Eq, Structural)]
pub enum ChannelSetting {
    Unset,
    Invalid,
    Channel(u64),
}

/// A variable that is not set or empty means that no card is wanted.
pub fn channel_setting(var: Option<&str>) -> (r: ChannelSetting)
    ensures
        r == (match var {
            Some(raw) => if raw@.len() == 0 {
                ChannelSetting::Unset
            } else {
                match parsed_id(raw@) {
                    Ok(id) => ChannelSetting::Channel(id),
                    Err(_) => ChannelSetting::Invalid,
                }
            },
            None => ChannelSetting::Unset,
        }),
{
    match var {
        Some(raw) => if raw.is_empty() {
            ChannelSetting::Unset
        } else {
            match parse_id(raw) {
                Ok(id) => ChannelSetting::Channel(id),
                Err(_) => ChannelSetting::Invalid,
            }
        },
        None => ChannelSetting::Unset,
    }
}

/// A path that holds anything but white space is taken as it is; where there is no such path
/// the log goes to the default file.
pub proof fn law_log_path(var: Option<String>, r: String)
    requires
        call_ensures(lobby_log_path, (var,), r),
    ensures
        var matches Some(path) ==> (exists|i: int|
            0 <= i < path@.len() && !is_white_space(#[trigger] path@[i])) ==> r@ == path@,
        var matches Some(path) ==> (forall|i: int|
            0 <= i < path@.len() ==> is_white_space(#[trigger] path@[i])) ==> r@
            == "lobby-watcher.log"@,
        var is None ==> r@ == "lobby-watcher.log"@,
{
}

/// The commands are registered in the guild whose id the variable holds. A variable that
/// holds no id is an error, the one that its text gives, and never means every guild.
pub proof fn law_registration(
    var: Option<&str>,
    r: Result<Registration, ParseIdError>,
    read: Result<u64, ParseIdError>,
)
    requires
        call_ensures(registration, (var,), r),
        var matches Some(guild) ==> call_ensures(parse_id, (guild,), read),
    ensures
        var is None <==> r == Ok::<Registration, ParseIdError>(Registration::Global),
        var is Some ==> (read matches Ok(id) ==> r == Ok::<Registration, ParseIdError>(
            Registration::Guild(id),
        )),
        var is Some ==> (read matches Err(e) ==> r == Err::<Registration, ParseIdError>(e)),
{
}

/// The card's channel is the one whose id the variable holds. No variable or an empty one asks
/// for no card, and any other text is invalid.
pub proof fn law_channel_setting(
    var: Option<&str>,
    r: ChannelSetting,
    read: Result<u64, ParseIdError>,
)
    requires
        call_ensures(channel_setting, (var,), r),
        var matches Some(raw) ==> call_ensures(parse_id, (raw,), read),
    ensures
        r == ChannelSetting::Unset <==> var is None || var->0@.len() == 0,
        forall|id: u64|
            r == ChannelSetting::Channel(id) <==> var is Some && read == Ok::<u64, ParseIdError>(
                id,
            ),
        r == ChannelSetting::Invalid <==> var is Some && var->0@.len() > 0 && read is Err,
{
}

} // verus!
