# ccidkit

Smart-card I/O for CCID readers: APDU values, the CCID bulk codec, the T=1 block
machine, and the policies a runtime follows around them, proved with Verus.

## Layout

- `src/` — the verified library.
  - `model` — command and response APDUs, status words, ATRs.
  - `ccid`, `protocol`, `bytes` — the CCID bulk messages and the T=1 block conversation.
  - `usb`, `pcsc`, `virtual_reader`, `testing` — the decisions of each backend: reader
    selectors, descriptor and quirk handling, slot sessions, error classification,
    scripted virtual cards.
  - `facade`, `operation`, `diagnostics`, `error` — reader identifiers, automatic
    `61xx`/`6Cxx` handling, job routing, completion slots, the bounded trace hub.
  - `cli`, `text` — command-line requests, hex input, text helpers.
  - `quirk_table`, `quirk_rules` — the reader quirk table and its validation.
  - `manifest`, `source_scan`, `gates` — the repository checks: manifest scanning, the
    dependency matrix, the pure layer, the `unsafe` boundary, target names.
- `tests/` — executable tests of the library.
- `app/` — the runtime around the library: USB and PC/SC I/O, worker threads, waiting
  and cancellation, the `ccid` command line, and the repository check runner.
