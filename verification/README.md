# puretd_engine

PureTD spoken as a Backgammon Engine Protocol engine, with the part that
decides and computes written in Verus and proved against its contracts.

- `src/` — the verified library: the GnuBG-to-PureTD board conversion
  (`board`), play notation (`notation`), ranking of candidate plays and the
  pick of the played one (`ranking`), the evaluation timestamp (`clock`), and
  what each protocol message is answered (`protocol`).
- `app/` — the engine binary: the JSON-RPC loop, the PureTD C calls, the
  floating-point evaluation, and the protocol crate's types.
- `tests/` — tests of the library.
