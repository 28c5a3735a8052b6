# chess_coach

Position analysis for a chess coaching assistant, verified with Verus.

The library (`src/`) finds tactical patterns (hanging pieces, forks, pins, skewers) and
strategic features (material, pawn structure, king safety, piece activity) on a board,
reads Stockfish's UCI output, compares the engine's line with the user's move checkpoint by
checkpoint, selects knowledge documents for a coaching prompt and builds that prompt. The
exchange with the engine is a state machine (`engine.rs`) that says which command to write
and which line to wait for; the program in `app/` runs it against a Stockfish process and
calls a local Ollama model.

Modules:

- `bitboard`, `board`, `attacks`: sets of squares, the board model and attack geometry
  (shakmaty's attack tables are called for sliding and leaping pieces).
- `tactics`, `strategy`, `analysis`: the findings of a position and the comparison of lines.
- `text`: the string handling the rest relies on, with exact specifications.
- `chess`, `moves`: FEN reading and move notation through shakmaty; engine output parsing.
- `knowledge`, `llm`: document retrieval, the coaching prompt and the reading of the
  model's reply.
- `engine`: reading engine output up to a marker line, and the analysis exchange.

Usage of the program: `chess_coach <FEN> [UCI move] [--coach]`, with `STOCKFISH` naming
the engine binary and `KNOWLEDGE_DIR` the directory of the knowledge JSON files.
