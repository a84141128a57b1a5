# revision

Revision-tolerant serialization and deserialization: values are written in a compact
binary format (bincode-compatible variable-length integers, length-prefixed strings and
sequences, bit-packed boolean vectors, fixed-width numeric vectors), and types carry a
revision history so that data written at an older revision can still be read.

The library is verified with Verus. Each encoder and decoder states, over a
mathematical model of its type, the bytes it writes or the value and byte count it
reads, and the round trip (decoding what was encoded gives the value back) is proved
for every supported type.

## Layout

- `src/lib.rs` — the `Revisioned`, `SerializeRevisioned`, `DeserializeRevisioned` and
  `SkipRevisioned` traits, their `Vec` companions, the round-trip laws, and the
  `from_slice` / `to_vec` entry points.
- `src/error.rs` — the error type and its kinds.
- `src/implementations/` — the encodings: primitives and varints, strings and
  characters, vectors (generic and specialised), arrays, `Option`, `Result`, `Box`,
  `Arc`, `Cow`, `Range`, tuples, `Duration`, `BTreeMap`, `BTreeSet`, `HashMap`,
  `HashSet`, a `BinaryHeap` of the library's own (a max-heap kept in a vector, pushed
  as std's heap pushes), and skipping. `ordered.rs` holds the key types of the ordered
  collections (the integer types, whose order vstd specifies) and the sorted order of
  a finite set of keys; `prefix.rs` proves that no strict prefix of an encoding
  decodes; `walk.rs` walks encoded sequences and maps item by item (`SeqWalker`,
  `MapWalker`, `MapEntry`, `LeafWalker`, `MapWalker::find` and `find_bytes`,
  `LengthPrefixedBytes`) and refuses to walk vectors with a bulk layout. A walker holds
  how many items are left; each step takes the reader it reads from.
- `src/ast/` — the options of the `#[revisioned]` and `#[revision]` attributes, the
  revision history, and the item shape that the derive logic reads.
- `src/expand/` — the checks and decisions the derive logic makes on an item:
  encoding contexts, `convert_fn` detection, revision bounds, discriminant assignment,
  optimised-encoding validation, and, as plain-value plans, what the generated
  serialize, deserialize, skip and walker code does at each revision (`optimised/`,
  `skip.rs`, `reexport.rs`, `walk.rs`). `optimised/wire.rs` gives the bytes of the
  optimised format (tag byte, size-class framing, struct payload and offset table)
  with the functions that write, read and check them, and the laws that reading back
  what was written gives the same arm, payload and fields. The walker plan states how a
  walk starts at each wire revision and what each field and variant accessor does there.
- `app/` — the human-readable messages of the error types, and `std::io` adapters.
- `tests/` — executable tests.

## Scope

- Map and set keys are integer types (`OrderedKey`): the encoding writes entries in
  increasing key order, and vstd specifies the order of `BTreeMap` iteration only for
  key types whose `Ord` it knows. Hash maps and sets use the default hasher and are
  written in the same increasing key order, one of the orders a hashed collection may
  be iterated in, so that the bytes are a function of the contents.
- Not provided: floating-point numbers; `SystemTime`, whose serialization can fail where
  this library promises that serializing succeeds; std's `BinaryHeap`, which Verus
  cannot declare (it has an allocator parameter) and which the library's own heap stands
  in for; `Wrapping`, `Reverse` and `Bound`, std types
  that Verus holds only as opaque values, of which a generic contract can say nothing;
  and the implementations for optional outside crates.
- `Duration` decoding reports an integer overflow where the nanoseconds carried into the
  seconds overflow them.
