# wizardbot_engine

A chess engine: bitboards with magic lookup, legal move generation, static
exchange evaluation, an incrementally updated neural network beside a classical
evaluation, an alpha-beta search with iterative deepening, an opening book, and
the UCI protocol.

The library under `src/` is verified with Verus. What a position, a legal move
or a search result is, is stated as mathematics; the executable code is proved
against these statements.

| modules | subject |
| --- | --- |
| `bits`, `geometry`, `bitboard` | sets of squares, rays, attack tables |
| `pieces`, `moves`, `rules`, `safety`, `legality`, `listing` | the rules of chess, and the ordered list of the legal moves |
| `position`, `zobrist`, `fen`, `notation`, `canonical`, `integrity` | positions, their keys and their texts |
| `movegen`, `captures`, `capture_laws`, `checks`, `exchange`, `perft` | move generation and what rests on it |
| `eval`, `nnue` | evaluation, and the network with its file format |
| `search` | transposition table, move ordering, quiescence, alpha-beta, deepening |
| `book`, `book_file`, `clock`, `uci`, `replay` | opening book, time, protocol |
| `arith`, `single`, `double`, `text`, `context` | wrapping, single- and double-precision arithmetic, text, shared tables |

What relates several functions is stated in public proof functions:

- `legality`, `position`, `replay`: legal moves keep a board playable, what is
  made can be taken back, and a written line of moves is replayed to its end
- `listing`, `captures`, `capture_laws`, `checks`, `exchange`: the legal moves are
  listed each once, the captures are sound and complete, checks are foreseen
- `notation`, `canonical`: position texts are read back, and usual texts come back
- `search::selection`: a row of calls of the move orderer hands out every move
  once, by falling score
- `search::tt`, `search::helpers`: what is stored is found, and mate scores survive
- `nnue::accum`, `nnue::inference`, `nnue::mirror`: accumulators follow the board,
  they give the score of the position, and a colour flip keeps it
- `nnue::refusal`: a good network file can be neither cut nor extended nor given
  another version or hash
- `book`, `book_file`, `clock`: the draw finds its reply, every entry is found, and
  more time on the clock never means less thinking

A search asks from time to time whether to stop: a flag, a token and the clock.
What it is told is recorded, for the proofs only, and the result of every search
is stated for every record of answers.

`app/` is the program around it: it reads the network `nn-5af11540bbfe.nnue` and
the book `openings.js` from the working directory, if they are there, and speaks
UCI on standard input and output. With an argument it runs one of the
developer's tools: `perft`, `search`, `smoke`, `baseline`, `nodes`, `moves`.

A few functions of the standard library and of `serde_json` are trusted: their
contracts are stated, not proved. Each says so in its documentation.
