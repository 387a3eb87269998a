# hft_bot

A market-making bot for two-sided prediction markets of fifteen minutes, with a
simulated exchange and backtests over recorded markets.

- `src/decimal` — decimal numbers, kept in canonical form; arithmetic is done by
  `rust_decimal` and specified over the reals.
- `src/domain`, `src/fsm` — sides, orders, fills, books, positions, phases and states.
- `src/exchange` — the clock, the exchange's events, and the simulated exchange.
- `src/inventory`, `src/strategy`, `src/engine` — the market maker: lots, the decisions
  of each phase, and the engine that carries them out.
- `src/ledger`, `src/risk`, `src/hedging` — the hedging robot: its ledger and log, the
  capital pools and the cash guard, its strategies and its engine.
- `src/text`, `src/backtest` — reading recorded markets, replaying them, statistics.
- `app` — files, the JSON log, and the event channel.

Every function states exactly what it returns. Amounts outside the number format, and
a few ties in quotients by very long numbers, are left out by predicates whose names end
in `_fits`; what holds across functions is proved
in the `laws` modules and beside the types.
