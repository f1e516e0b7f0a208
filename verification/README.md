# quota_tray

A desktop tray indicator for API quota. It polls a provider's endpoint, shows the
remaining quota as a colored ring with a menu, projects when each quota window
will run out, and notifies when the quota gets low.

The decisions are in a library that is verified with
[Verus](https://github.com/verus-lang/verus); the program around it does the
talking to the desktop, the network and the disk.

## Layout

- `src/`: the verified library.
  - `natural`, `ratio`, `text`: exact numbers and texts.
  - `burn`, `util`, `pricing`, `scheduler`, `state`: projections, labels, prices,
    the pace of polling and what is remembered between polls.
  - `json`, `parse`, `fetch`, `provider`, `config`: requests, answers and their
    configuration.
  - `menu`, `render`, `icon`, `sni`, `tray`: what is shown.
  - `keyring`, `notify`, `network`, `screenlock`, `portal_openuri`, `lock`,
    `activation`, `instance`: the desktop's services, as decisions on their answers.
  - `refresh`, `orchestrator`: one poll, and the event loop around it.
- `tests/`: tests of the library.
- `app/`: the program.

## What is trusted

The library believes the contracts in `src/json.rs` (reading JSON with
`serde_json`), of `String::push` in `src/text.rs`, of `String::from_utf8` in
`src/keyring.rs` and of `String::from_utf8_lossy` in `src/orchestrator.rs`.
Everything else in `src/` is proved.

Rates and prices are exact fractions, and doubles enter the library as their bits.
Where a rate or a cost becomes text, it and every step on the way are rounded to
doubles, with the same result as IEEE 754 arithmetic.
