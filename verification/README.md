# lobby_watcher

A headless service that polls the open Timestone lobbies through Steam every 15 s,
reports how they come, change and go, keeps a plain-text history, and shows them on
Discord.

- `src/` is the library. Verus proves its functions against their contracts, all but the
  few that only call out: the wrappers around serenity's embed builder in `embed`, `quote`
  in `log`, which gives a string's `{:?}` text, and the readings of the system clock in
  `clock`. What those are trusted with stands in their contracts.
  - `watcher`: what one poll reports, what is kept between polls, when to search.
  - `lobby`, `log`: a lobby, its events, and the rows of the history log.
  - `snapshot`, `embed`: the lobbies busiest first, and the embed that lists them.
  - `card`: the one message that shows the lobbies of the last poll.
  - `calendar`, `clock`, `text`, `settings`: dates, the wall clock, numbers and ids as
    text, and what the environment variables ask for.
- `app/` is the process around it: Steam, Discord, files and environment.
- `tests/` runs the library with the real crates.

A lobby is `created` when its id is new, `updated` when its name, host, protocol, member
count or owner has changed, and `deleted` when two polls in a row have missed it.
