# tty_mate

A terminal chess game: a rules engine, the line protocol between client and
server, and the state machines behind the screens, each with its contract
proved by Verus (`src/`), around a thin program that draws the screens, reads
the keyboard and talks over TCP (`app/`).

- `src/model.rs` – the rules as mathematics: moves by pattern, attacks,
  legality, what a move does to a position.
- `src/board.rs` – the engine, proved against the model.
- `src/properties.rs`, `src/attacks.rs` – laws: every accepted move passes the
  turn; from the start of a game every position reached is sound (kings on
  their recorded squares, the en passant square behind the pawn that made
  its double step, the side that just moved not in check, the check marker
  naming whether and from where the side to move is attacked), so no accepted
  move leaves the mover's king attacked or takes a king; checkmate is won by
  the mover, stalemate drawn.
- `src/simple.rs` – a first engine: patterns and turns only.
- `src/api.rs`, `src/text.rs` – the wire protocol, with parse/print round trips.
- `src/menu.rs`, `src/game.rs`, `src/multiplayer.rs` – the screens as state machines.
- `src/server.rs` – matchmaking and the server's answers.
- `src/diagram.rs` – a text diagram of a position.

Run the client with `app` and the server with `app server [address]`.
