# endecode

A compact binary encoding with verified contracts. `Encode` writes a value as
bytes and `Decode` reads it back from a `ByteIter`:

- integers: big-endian, as many bytes as the type has (`usize` and `isize`
  as many as a `usize` has); signed ones in two's complement;
- `bool`: one byte, `1` or `0`; any nonzero byte reads as `true`;
- `Option`: a `bool` tag, then the value; `Result` (read only) reads an
  `Option` of the value and, where it is `None`, the error;
- `String` and `&str`: the number of UTF-8 bytes as a `usize`, then the bytes;
- `Vec`, `Box<[T]>` (read only) and `HashMap`: a `usize` count, then the items
  (key and value pairs for maps); arrays (read only) hold no count;
- tuples of up to sixteen items: the items in order.

`src/` is the verified library: `model.rs` gives each type its mathematical
model, `encode.rs` and `decode.rs` state what is written and what is read,
`roundtrip.rs` proves that reading an encoding gives the value back, and
`big_endian.rs`, `entries.rs` and `input.rs` hold the arithmetic, the map
lemmas and the byte source. `app/` holds the derive macros' code generation
and the floating-point helpers, which are not verified.
