# rusty_irc

A small IRC server whose logic is a Verus-verified library.

- `src/irc/` — users, the parsing and writing of IRC messages, the requests of
  the event loop (`ServerMessage`), and command handling.
- `src/logging.rs` — the log levels and the decision of what a log call prints,
  given the `log` section of the configuration.
- `src/network_interface/` — clients, the channel list, and the server state
  (`ServerHandler`): token allocation for new connections and the handling of
  event-loop requests, which returns the actions the event loop must carry out.
- `app/` — the program: reads `config.ini`, binds the socket, and runs the mio
  event loop, doing the reads, writes and registrations the library asks for.
- `tests/` — tests of the library on concrete values.
