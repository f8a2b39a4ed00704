# stock_mm

A market maker for stock perpetuals that are traded on two venues, Binance and Gate. One venue gives the
reference price, a grid of orders is kept around the fair price on the other. By default a strategy only
observes; it sends orders once it is switched to live. Limits are in USDT of notional amount.

The rules of the program are a library that Verus verifies:

- `src/types/` holds decimals, ids, times, instruments, orders and what a strategy shows of itself.
- `src/strategy/` is a strategy: the window of spreads, what may be quoted, the grid, exits, and how orders are
  brought about. `laws.rs` states what holds of it whatever happens, and `course.rs` what holds over many events.
- `src/exchange/` knows the venues: what they send, what is sent to them, how requests are signed, how
  connections are kept up.
- `src/engine/` routes events and effects for each strategy; `src/marketdata.rs` ranks instruments;
  `src/risk.rs` holds the limits for all strategies together; `src/store.rs` turns rows into values and back.
- `src/auth/` keeps the console's door: password, authenticator, sessions.
- `src/config.rs`, `src/json.rs`, `src/codec.rs`, `src/table.rs` and `src/text.rs` serve the rest.

A few functions call outside crates and are trusted: decimals (`rust_decimal`), JSON (`serde_json`), digests and
encodings, addresses (`url`), chance (`rand`, `uuid`) and the clock. Each says above it what is claimed of the
call.

`app/` is the program around the library: settings, the database, connections, the console's interface, and
the few figures that are worked out in floating point.

## Running

Keys are read from `.env`; without any, market data and observing still work. The console listens on
`127.0.0.1:8080` and asks for a name, a password and a code. Where no password was set, the first start writes
one to `data/initial-password.txt`.
