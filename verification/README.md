# market_protocol

Wire protocol for market data (quotes, ticks, candlesticks, order book
snapshots) exchanged between producers and consumers, verified with Verus.

- `src/v1/` — the binary protocol: the message types of the protobuf schema
  `market_protocol.v1` (field numbers in `src/v1/mod.rs`), their encoder and
  decoder, and the round-trip law (`v1::nested::law_frame_roundtrip`).
- `src/wire.rs` — protobuf wire primitives (varints, keys, fixed-width and
  length-delimited values, skipping of unknown fields and groups).
- `src/types.rs`, `src/message.rs`, `src/metadata.rs` — the market data types,
  the `MarketMessage` envelope and the `Message` metadata trait.
- `src/frame.rs` — heartbeat / resume control frames of the textual protocol.
- `app/` — the JSON form of the messages (serde), outside verification.

Real-valued quantities are held as the bits of an `f64` (`f64::to_bits`).
