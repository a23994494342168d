# burrower

Burrower locates the mathematical home of a proof goal: it normalises a
goal to its signature tokens, ranks the lemmas of an indexed corpus by
Jaccard similarity of their tokens, and routes the goal through a swarm of
domain specialists (algebra, order theory, combinatorics) that read it,
locate homes in their part of the corpus, and try their playbooks of
Isabelle tactics. Every approach is recorded in the Burrow Ledger.

## Layout

- `src/` — the library, verified with Verus: goal parsing (`goal`),
  lemma extraction (`corpus`), ranking (`ranking`), the specialists and
  the swarm (`specialist`), probes and their outcomes (`attempt`), the
  oracle's verdicts (`oracle`), ledger records and queries (`ledger`),
  ledger and attempt summaries (`digest`), the service's decisions
  (`serve`), the WebAssembly entry points' decisions (`wasm`), and the
  character-level text and number formatting they share (`text`,
  `format`).
- `app/` — the command line, file and process I/O, the Unix socket
  service, the C ABI, and the JSON forms of the library's types.
- `tests/` — tests of the library on concrete values.
