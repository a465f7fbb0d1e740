# yggdrasil

The logic of the Yggdrasil universes — the Vim trainer, poker, the small
arcade games, universe instances and the communication lexicon — written in
Verus: each public function states what it does in `requires` / `ensures`,
and Verus proves it.

## Layout

- `src/` — the verified library.
  - `text.rs`, `keyed.rs`: character and string helpers, keyed vectors.
  - `vim/`: the modal editor as a state machine, its levels and sessions.
  - `poker/`: cards, hand ranking, betting rounds, bots and the lobby.
  - `comunicacao/`: rooms, the lexicon (slugs, entry files, publishing
    and promotion decisions), packs, reviews, scores and the term graph.
  - `instance/`: universe instances, their templates, edits and notes.
  - `invaders.rs`, `tetris.rs`, `snake.rs`, `pointset.rs`, `shandara.rs`,
    `sdk.rs`: the game universes and the shared game protocol.
  - `core_game.rs`, `ygg_invaders.rs`, `ygg_snake.rs`, `ygg_tetris.rs`: the
    key-driven games of the core library, with their variant options.
- `tests/` — tests that run the compiled library.
- `app/` — plain Rust around the library: file and JSON input and output,
  clocks and random seeds, and the float arithmetic of the timeline columns
  and of the pack layouts.

The poker table with seats and bots (`PokerTable`, `YggPoker`) runs on the
poker engine of the `game_core` crate, which is not part of this build, so
it has no counterpart here; the poker universe's own table is in `poker/`.

Calls into `sha2`, `chrono`, `serde_json` (reading a game request) and a
few std functions that Verus does not specify stand behind small trusted
wrappers whose doc comments say what is assumed of them. The library reads
the JSON requests of the pointset and poker universes itself; turning a
session's state into its JSON reply is left to `app/`, where the serde
derives live. Likewise `app/` reads and writes the lexicon's files: the
library decides where an entry goes, what it says and what a promotion
writes, and `app/` carries that out on disk.
