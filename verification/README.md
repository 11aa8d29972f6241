# gamelogic

The rules of the trick-taking card game Wizard (3 to 6 players, 60 cards,
4 Wizards and 4 Jesters), verified with Verus, and a small lobby server
around them.

- `src/cards.rs`: cards, suits, the deck and hand sorting.
- `src/rules.rs`: lead colour, follow-suit rule, trick winner, scoring.
- `src/model.rs`: the mathematical model of a game (`GameState`) and the
  steps of its state machine.
- `src/game.rs`: `Player` and `WizardGame`, whose methods are proved to
  perform the model's steps and keep the game's invariant.
- `src/laws.rs`: properties of the game as a whole (dealer rotation, tricks
  per round, scoring, turn order, play never gets stuck, ...).
- `src/views.rs`, `src/server.rs`: what clients see of a game, and the
  decisions of the lobby server (validation, refusals, bot turns).
- `src/text.rs`: decimal numbers and blank text.
- `src/rng.rs`: the calls into `rand` and `rand_distr`, with their contracts.
- `app/`: the HTTP/WebSocket server (axum, tokio, dashmap), which only reads
  requests, stores lobbies and sends answers.
