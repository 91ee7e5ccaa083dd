# lkjmcrs

Parts of a Minecraft Java Edition (1.21.11) server and of the probes that check it, written
in Verus: every function under `src/` is verified against its contract, except the few
wrappers marked `#[verifier::external_body]` around calls into outside crates, whose contracts
are trusted as the outside source shows them.

## Layout

- `src/` — the verified library.
  - `config.rs`, `terrain.rs`: server settings, their defaults and their validation.
  - `model.rs`, `inventory.rs`: game modes and player inventories (stacking, capacity,
    taking from the selected slot).
  - `store.rs`, `names.rs`: the rules of player storage: stored values, home keys, the home
    limit, sorted name listings.
  - `codec.rs`: protocol primitives (VarInt, big-endian integers, positions, strings).
  - `chunk.rs`, `terrain_chunk.rs`, `persistence.rs`, `survey.rs`: chunk packets: their
    validation, block decoding, block lookups and terrain surveys.
  - `packets.rs`, `entities.rs`, `registry.rs`, `chunk_window.rs`, `auth.rs`, `retry.rs`,
    `messages.rs`: what the probes check in the server's packets and how they decide.
- `tests/` — tests run against the compiled library.
- `app/` — the program: command line, settings file, the redb player store.
