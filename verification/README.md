# game_server

The verified core of a team quiz-and-shooting game server. Users connect
over websockets, introduce themselves in the lobby, gather in a waiting room
that splits them into two balanced teams, and once everyone is ready they
play: each player answers multiple-choice problems, and a right answer lets
them fire at the other team. A team wins when the other one is wiped out.

Layout:

- `src/` — the library, verified with Verus:
  - `counter.rs`: connection ids;
  - `ping.rs`: the ping payload (big-endian time) and the round-trip delay;
  - `problem.rs`: shuffling the answers of a problem while keeping track of the right one;
  - `room.rs`: the waiting room and its teams;
  - `game.rs`: a game: entering, problems, answers, shots, deaths and the winning team;
  - `lobby.rs`: users, routing every user to the room or a game, and spawning games;
  - `server.rs`: the entry point for websocket events;
  - `service.rs`: the traits that the room, the games and the lobby implement;
  - `action.rs`: what the library asks the program around it to do.
- `app/` — the program: websocket I/O, timers, JSON and TOML, logging, the
  static file server, and the floating-point part of the game (positions,
  health, the flight of shots).
- `tests/` — tests of the library.
