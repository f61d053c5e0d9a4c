# il2_iltags

An implementation of the InterlockLedger **ILInt** and **ILTag** encodings,
verified with Verus.

- `src/ilint.rs`: ILInt encoding and decoding, and the signed variant.
- `src/io`: the `Reader` and `Writer` abstractions, in-memory readers and
  writers, the big-endian value readers and writers, and the decision that a
  seekable stream takes to skip bytes.
- `src/tags`: the `ILTag` interface, raw tags, the creator engine, the
  standard implicit and explicit tags, the standard tag factory, the raw tag
  scanner and the serialization helpers.
- `app/`: adapters between the library's readers and writers and `std::io`
  (plain and seekable streams), and the floating point helpers.

Every function of `src/` carries a contract proved by Verus; the laws of the
encodings (such as decoding what was encoded) are stated as proof functions
next to the code they are about.

The contracts speak of readers and writers through their models: a reader
has the bytes it will still deliver (`remaining`) and those it delivered
(`consumed`); a writer has what it wrote (`written`), what lies past its
position (`tail`) and how many more bytes it takes (`room`). Functions that
write a known sequence of bytes promise, through `writes_exactly`, to succeed
when it fits in the room, to fail when the writer is known to refuse it, and
to write exactly those bytes. Readers, writers, tags and payloads are held to
their models only when they say so (`obeys_model`, `obeys_tag_model`,
`obeys_payload_model`); those of this library do, while readers and writers
over outside streams, and tags written outside verified code, do not, and
the contracts promise nothing of them.

The creator engine records the kind of each creator it is given, so that
what the standard factory reads back is stated: a known tag of a kind that
holds no other tag comes back as a tag of that kind exactly when its value
is one of that kind, and a sequence, array or dictionary whose tags are read
back in turn, however deep they nest, comes back as a container of that
kind.
