# biblio-bot

A Discord bot that searches ebooks through Prowlarr, sends the chosen release
to qBittorrent, and keeps a search running in the background when nothing
turned up yet.

- `src/` is the library, verified with Verus: configuration parsing, the
  English and French messages, the watchlist and download lists with their
  scheduling rules, the repair of mangled release titles, the ordering of
  search results, the requests sent to Prowlarr and qBittorrent and the
  reading of their answers, and every embed, menu and reply the bot shows.
  Public proof functions state the laws the library keeps.
- `app/` is the program around it: the Discord gateway and slash commands,
  HTTP clients, JSON files on disk and the background sweep. It sends the
  requests and posts the replies the library decides on; what it checks
  itself is that each library call's arithmetic stays within range.

Flagging a stuck download (`/stuck`) and tracking downloads until they finish
seeding are not part of the bot: the download list is kept in `src/` with its
rules and loaded at startup, but no command or sweep acts on it yet.
- `tests/` runs the library on concrete values.
