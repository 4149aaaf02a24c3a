# omi_game

Server logic of Omi, the Sri Lankan four-player trick-taking card game,
written in Verus: the executable code carries `requires`/`ensures` contracts
and Verus proves that it meets them.

## Layout

- `src/types.rs` – suits, ranks, cards, plays, room phases and modes.
- `src/deck.rs` – the 32-card deck (Seven to Ace in four suits), shuffling and
  dealing from the top.
- `src/game_logic.rs` – who wins a trick, which plays are legal, and how a
  round is scored (4-4 tie, ordinary win, kapothi).
- `src/bot_ai.rs` – the bot: trump choice and card choice, with its random
  play chance per difficulty.
- `src/random.rs` – the calls into `rand` (seeding, percentile rolls, index
  draws, shuffling), each with the contract the library relies on.
- `src/tables.rs`, `src/queries.rs`, `src/ops.rs` – the game's tables (players,
  rooms, hands, hand records, scores) as an in-memory database with a
  mathematical view, lookups and row updates.
- `src/steps.rs` – the game's state machine: dealing, naming trump, playing a
  card, ending a round, and the automatic steps (bot moves and bot deals) that
  follow a request.
- `src/reducers.rs` – the requests a client can make. A refused request
  returns its error and leaves the database as it was.
- `src/integrity.rs` – the tables' integrity (`wf`: unique primary keys,
  ids below their sequences), kept by every table operation, game step and
  request.
- `src/progress.rs` – a bound on the automatic steps: in a room with a
  person's seat they stop within ten steps.
- `src/text.rs` – names, team letters, room codes and error texts.
- `app/lib.rs` – the SpacetimeDB module: table definitions, loading and
  storing the tables, and the reducers that call the library.
- `tests/` – tests of the library on concrete games.

## Rules as implemented

- Partners sit opposite: seats 0 and 2 form team A, seats 1 and 3 team B.
- A player must follow the leading suit when able; the highest trump wins a
  trick, otherwise the highest card of the leading suit.
- Round scoring: a 4-4 split is a tie worth nothing; winning all eight hands
  (kapothi) is worth 2 points, or 3 to the team that did not choose trump;
  any other win is worth 1 point, or 2 after a tied round.
- The first team to reach 10 points wins the game.
