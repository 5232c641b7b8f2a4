# redis_cilent

A writer and reader for RESP, the Redis serialization protocol.

- `src/` is the verified library (Verus). `ser.rs` writes values and states
  the text each one appends; `de.rs` reads frames and states, as functions
  over the characters left, what each read returns and consumes; `text.rs`
  holds decimal formatting and `i64` parsing; `laws.rs` proves that what is
  written reads back (integers, bulk strings without `\r\n`, simple strings,
  array headers and arrays of bulk strings).
- `app/` connects serde's data model to the library (`to_string`,
  `from_str`) and holds the small program that talks to a Redis server.
- `tests/` runs the library on concrete inputs.
