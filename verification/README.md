# binspec

Reading binary formats through windows onto bytes, verified with Verus.

- `src/cursor.rs`: `Cursor`, a window of bytes, with intersection, join, containment and
  relative addressing, and the laws that relate them.
- `src/byte_source.rs`: the `ByteSource` trait (bytes that can be peeked at by window) for
  `Vec<u8>` and for views.
- `src/view.rs`: `View`, a window onto a source that reading moves forward.
- `src/file.rs`: `MmapByteSource`, a byte source over a memory-mapped file.
- `src/specs.rs`: the `Spec` trait for formats, the fixed-width numbers in either byte
  order, repeated reads and reads with a fallback.
- `src/decode.rs`: the base-256 numbers that bytes encode in either order.
- `src/trys.rs`: two-way outcomes and reading text that may not be UTF-8.
- `src/errors.rs`: the errors of reading and of checking what was read, and their text.
- `src/text.rs`: decimal numerals, for the text of cursors and errors.
- `app/`: opening files as memory maps, the interactive entry point, the error types with
  `Display`, conversions to `either::Either`, and the macros that formats are written with.
