# gto_cli

A command-line poker toolkit whose decision logic is a library verified with
Verus: cards and boards, hand evaluation, range notation, canonical flops, board
texture and c-bet advice, preflop chart lookups, Monte Carlo equity counts, the
layout of flat CFR+ storage, and the interactive advisor as a state machine.

## Layout

- `src/` — the verified library. Each module states its behaviour in
  `requires`/`ensures` over spec functions, and the laws that relate several
  functions are public proof functions named `law_*`.
- `tests/` — tests of the library on concrete values.
- `app/` — the `gto` program: argument parsing, terminal I/O, loading the
  chart files, the floating-point pot and odds arithmetic, and the loop that
  drives the advisor's state machine.

Calls into outside crates (`rand`, `itertools`, `rayon`, `colored`,
`comfy_table`) and a few `std` string functions stand behind small trusted
wrappers in `src/`, each with a doc comment that says what its contract claims.

The command-line solvers of the toolkit (preflop, flop and turn CFR, push/fold,
batch solving and the queries on solved spots) are not part of this build:
they rest on modules and data that are not included here. Their
floating-point payoff and result types stand in `app/solver_values.rs`, and
the flat CFR+ storage in `app/cfr_store.rs` over the verified layout in
`src/flat_cfr.rs`.
