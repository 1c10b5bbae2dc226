# ggs — Geister Geister Schatzsuchmeister, verified

A game engine, rule set and strategies for the cooperative board game
"Geister Geister Schatzsuchmeister", with their behaviour stated as Verus
contracts and proved.

## Layout

- `src/` — the verified library.
  - `board`, `state`, `action`, `variant`: the board graph, the game state and its types.
  - `rules`, `search`: legal actions, win and loss, breadth-first distances.
  - `engine`: each action's effect as a pure transition, with its executable form.
  - `step`: one step of the game as a function of state, action and chance outcomes;
    `preservation`: the proof that every step keeps the state invariant.
  - `game`: the driver that sets a game up, rolls the dice and shuffles the deck
    (through the `rand` crate, in `rng`).
  - `simulation`, `log_format`: whole games, their records and the binary log format.
  - `observation`, `strategy`, `greedy`, `random`, `vocabulary`, `batch`, `validity`.
- `app/` — the programs: `simulate` (the default) runs batches of games;
  `train` as the first argument trains the policy network. The floating-point
  parts (observation vectors, the network, tree search scores, win rates) live
  here, as does file I/O.
- `tests/` — the tests.
