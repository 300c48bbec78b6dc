# rust_avif

Memory-safe components of an AVIF reader, verified with Verus: byte and bit
streams, buffers, the ISO Base Media File Format (BMFF) box parser with the box
types that AVIF files use, the AVIF image representation, and a decoder front
end.

## Layout

- `src/io.rs` — `ReadStream` and `WriteStream`: big-endian integers, strings,
  bit fields, box headers and seeking, each specified over the stream's bytes,
  position and bit cursor; with the laws that what is written reads back.
- `src/memory.rs` — `Buffer` and `RwData`, byte buffers viewed as sequences.
- `src/bmff/` — the box parser (`parser.rs`: box headers, `Parser`,
  `parse_avif`), child-box walks (`children.rs`), four-character codes
  (`fourcc.rs`) and one file per box type under `boxes/`. Every box parser
  states, as a spec function of the input bytes, when it succeeds, which error
  it returns otherwise, and what each parsed field holds.
- `src/avif_image.rs`, `src/decoder.rs` — images, planes and the decoder.
- `src/error.rs` — the error type and the result codes of the C interface.
- `src/text.rs` — the standard-library string functions the parsers rely on.
- `app/` — the C interface (`extern "C"` functions), error messages, and
  reading decoder input from any `std::io::Read`.
- `tests/` — the test suite.
