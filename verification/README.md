# micropb-gen

The verified core of `micropb-gen`, the code generator that turns Protobuf descriptor
sets into Rust modules for `micropb`. It is written in Verus: each function carries a
`requires`/`ensures` contract that Verus proves.

## Layout

- `src/wire.rs`: the Protobuf wire format (varints, tags, length-delimited and fixed-width
  values, skipping), as spec functions on byte sequences and readers proved against them.
- `src/descriptor/`: the `google.protobuf` descriptor messages, with their presence bits,
  accessors and decoders. Each message has a model (`XModel`), a spec `decode_stream` that
  reads fields while fewer than a given number of bytes have been read (as a nested message
  is read), a spec `merge_from` that says what decoding a buffer into it gives, a spec `merge_until_error` that says what a failed
  decode leaves in the message, and the law that decoding two buffers one after the
  other is decoding their concatenation.
- `src/config.rs`: per-type and per-field configuration, its builder, merging (with its
  laws) and the checks of option values against `syn`'s parsers.
- `src/generator.rs`, `src/ident.rs`, `src/text.rs`: the naming rules of the generated code:
  fully qualified names, type path resolution, identifier sanitizing, enum variant names,
  derive lists and error texts.
- `src/error.rs`: the library's error type and its messages.
- `src/bits.rs`: the bitfield behind the presence bits.
- `app/`: token-level glue around the library (`proc_macro2`/`syn` values, reading a
  descriptor set from disk, `Display` for errors).
- `tests/`: tests on concrete values.
