# investa

A verified core for the Investa desktop trading workstation: the rules that
decide what the application records, refuses and shows, proved with Verus.
Nothing here places a live order; every path that could is fixed off in the
contracts.

## Layout

- `src/` — the verified library:
  - `aggregation`, `stream`, `candles` — ticks to one-minute and higher bars,
    gaps, checkpoints and official REST repair of market streams;
  - `futures`, `orders`, `risk`, `controls` — the paper futures ledger, manual
    limit orders, risk limits, trade quality and operational drills;
  - `ml`, `shards`, `worker` — dataset manifests, shard sets, training jobs,
    out-of-sample metrics and the training worker's bookkeeping;
  - `market`, `kis`, `official`, `stocks` — broker, exchange and public-data
    requests and responses;
  - `analysis` — the decisions of an analysis snapshot and of a research
    backtest around the network calls;
  - `meeting`, `governance`, `readiness`, `platform`, `dates`, `text` — hand-offs,
    audits, soak runs, calendars and the text helpers the rest builds on.
- `tests/` — tests on concrete values, run against the compiled library.
- `app/` — the process around the library: the SQLite ledger, files, the clock,
  serde forms of the library's types and the few floating-point computations.

Outside crates: `sha2` and `url` are called from the library behind trusted
wrappers (`worker::sha256_hex`, `official::parse_url`); `serde`, `serde_json`
and `rusqlite` are used by `app/` only.
