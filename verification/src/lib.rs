//! The decisions and the text of a service that watches game lobbies: what a poll has to
//! report, when to poll, how lobbies are shown, and how one message is kept up to date.
pub mod calendar;
pub mod card;
pub mod clock;
pub mod embed;
pub mod lobby;
pub mod log;
pub mod settings;
pub mod snapshot;
pub mod text;
pub mod watcher;
