# Ristinolla

An ultimate tic-tac-toe engine that speaks the UGI protocol. The board is a
9x9 grid made of nine small 3x3 boards; winning a small board marks the
matching cell of the large board, and winning the large board wins the game.

The engine logic is a Verus library with its behaviour stated in contracts
and proved:

- `types`: squares, files, ranks, pieces and packed moves.
- `board`: the small boards, the full board with its incrementally kept
  Zobrist hash, move generation, and reading and writing position strings.
- `position`: a board with its move history (make and unmake).
- `search`: evaluation, the alpha-beta search with its move ordering
  history, iterative deepening, the time manager and the per-thread state.
- `ugi`: reading command lines into commands.
- `engine`: perft counting and the engine's option handling.
- `text`: character-level helpers (white space, trimming, number reading).

`app/` is the program around the library: the command loop, printing, the
search threads and the floating-point parts of the time control.
