# rusty_poly_bot

A live trading bot for the Polymarket BTC Up/Down 5-minute markets, driven by a
signal computed from Binance candles, with its decision logic verified by Verus.

Strategy `three_candle_rsi7_reversal`: after three closed candles of the same
colour, a red series with RSI7 at most 35 predicts `UP`, a green series with RSI7
at least 65 predicts `DOWN`. Each signal becomes an order on the market of the
day (`btc-updown-5m-YYYYMMDD`), is written to `logs/trades.csv`, and is followed
until its outcome is known.

## Layout

- `src/` — the verified library:
  - `binance.rs` candles, klines rows and websocket events;
  - `strategy.rs`, `strategies/three_candle_rsi7_reversal.rs` the signal;
  - `config.rs` configuration from environment values;
  - `polymarket.rs`, `signing.rs` slugs, market resolution, order planning,
    EIP-712 hashes and L2 request signatures;
  - `logger.rs` journal rows and console lines; `tracker.rs` order follow-up;
  - `decimal.rs`, `calendar.rs`, `text.rs` fixed-point numbers, UTC dates, text.
- `app/` — the program: environment, HTTP and websocket I/O, files, timers.
- `tests/` — tests of the library.

Prices and amounts are fixed-point integers in units of 10^-8 (texts are read in
the grammar of `f64` parsing and rounded ties to even); times are UTC milliseconds.

## Limits of this build

The Polymarket CLOB SDK is not among the dependencies. Orders are therefore
never signed ahead, and a Market order that reaches the SDK path fails with an
error instead of being sent: in this build the Market mode places no order.
The dry-run mode, the market resolution, the L1/L2 authentication, the order
status polling and the journal work as described.
