# chess

A chess library whose logic is verified with Verus: board representation, FEN reading
and writing, making and undoing moves with an incremental Zobrist hash, a legal move
generator, the UCI text protocol (both the engine's and the front end's side), and a
compact binary format for boards and games.

## Layout

- `src/common/` — squares, pieces, bitboards, the board and its hash tables, FEN, making
  and undoing moves, and the laws about them (`board_laws.rs`, `make_laws.rs`,
  `fen_laws.rs`).
- `src/move_gen/` — attack tables, the move generator, its move buffer, and the laws
  about generated moves (`gen_laws.rs`, `mate_laws.rs`, `buffer_laws.rs`).
- `src/uci/`, `src/chess_core/uci/` — UCI requests and responses: readers, printers and
  their round-trip laws.
- `src/file/` — the binary board and game format.
- `src/engine_names.rs` — which names an uploaded engine may carry.
- `app/` — the command-line program: reading input, threads and I/O around the library.
- `tests/` — tests of the library, among them the perft counts.

The hash keys come from `rand`'s `StdRng` seeded with a fixed number; that is the only
outside crate, reached through the trusted items in `src/common/hash.rs`. The other trusted
items wrap `String::push` (`src/text.rs`) and `char::is_alphanumeric`
(`src/engine_names.rs`).
