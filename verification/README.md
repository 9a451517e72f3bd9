# songbattle

Music tournaments decided by chat votes: songs are seeded into a bracket
(single elimination, double elimination with a bracket reset, or best of
three), viewers vote in Kick chat, a countdown closes each game, and the
winner advances. An OBS overlay follows the live state over a WebSocket.

## Layout

- `src/` — the library, written in Verus and verified: the operations carry
  `requires` / `ensures` contracts over a mathematical model of the data, and
  the laws that relate operations are proof functions. What comes from the
  wall clock or a random source is stated only as far as it can be: the
  clock readings (`now_ms`, `now_secs`, `expiry_from`) have no contract of
  their own, and the arithmetic on a reading is stated in the functions that
  take it as an argument (`millis_of`, `secs_of`, `expiry_at`).
  - `battle`, `bracket`, `timer`, `vote` — the tournament rules: layout and
    seeding, routing of winners and losers, byes, games and series, ballots.
  - `submit` — the anti-flood checks for chat song submissions.
  - `kick`, `json`, `sim` — chat frames, chat commands, the reconnect schedule.
  - `snapshot`, `state` — the live state and what the overlay is shown.
  - `store`, `codec` — the database rows of a battle and the battle rebuilt
    from them.
  - `oauth`, `handlers`, `media` — the login flow, the server endpoints'
    decisions, media lookups.
  - `text`, `clock`, `error`, `song` — shared helpers and types.
- `tests/` — tests of the library.
- `app/` — the program around it: the axum server, SQLite, HTTP, the chat
  socket, and the serializable copies of the library's types.
