# rbus

A D-Bus marshalling library written in Verus: D-Bus type codes, signatures
and alignments, and the encoding of values to bytes and back, with proofs
that every encoding reads back as the value written.

Layout:

- `src/marshal/` — `Cursor` (stream positions and alignment padding),
  `Marshaller` (reads and writes in a chosen byte order), and the byte
  encodings of fixed-width integers.
- `src/types/` — the `DBusType` trait and its implementations for integers,
  booleans, strings, object paths, signatures, arrays, dictionaries and
  tuples; the grammar of object paths and names.
- `src/message/` — message headers, header fields, flags, interface, bus,
  member and error names, and the message builder.
- `src/derive.rs` — the rules by which the D-Bus type of a structure or
  enumeration follows from its declaration.
- `app/` — the command line tool.
