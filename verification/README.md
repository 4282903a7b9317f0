# makcu_rs

Driver for a serial-attached mouse-control device ("km." text commands),
with its protocol logic verified in Verus.

- `src/`: the verified library.
  - `buttons`: the five-bit button-state mask and its round trip.
  - `decimal`: decimal text of integers, and reading command ids back.
  - `commands`, `batch`: the command texts, their framing on the wire, and
    batches of commands.
  - `reader`: splitting the received byte stream into button reports and lines
    (receive buffer: `bytes::BytesMut`).
  - `pending`, `sent_log`: routing each received line to the command that
    waits for it (table: `rustc_hash::FxHashMap`), recognising echoes.
  - `profiler`: per-operation timing statistics.
  - `mock`: the answer of the simulated device.
  - `scan`, `text`, `error`: delimiter search (`memchr`), byte strings, errors.
- `app/`: threads, serial ports (`serialport`, `tokio-serial`), channels,
  locks and the global state around the library.
- `tests/`: tests of the library.
