# game-server

The state of a game server and the rules by which its events change it, verified
with Verus.

- `src/` is the library. `state` holds the model of the server and of what each
  operation makes of it, `server`, `room`, `task` and `stream` the executable
  operations with their contracts, `laws` what holds across them. `outside` lists
  every call into another crate and what is relied on, `address` the addresses of
  the task store that must not reach it.
- `app/` runs a server: sockets, clocks, the task store. It performs the actions
  that the library puts into its outbox, in order.
- `tests/` runs the library on concrete values.
