# mpedb

The decision-making core of an embedded multi-process database, as a verified
library, with an ordinary Rust shell around it.

- `src/` is the library. Every function states what it returns in `requires`
  and `ensures`, and Verus proves it: the plan registry and its eviction, the
  group-commit ring and optimistic writes, row-level policies, sharding,
  attached files, stored functions and operators, reversible column runs, maps
  between table sets, and the version and archive stores with their codecs.
  Proof functions named `law_*` state what holds across several functions.
- `tests/` runs the library on concrete values.
- `app/` holds what talks to a storage engine, an SQL compiler, a spell machine,
  the clock and the file system. It asks the library what to do next and hands
  back what happened.

What is taken on trust is small: BLAKE3 (`src/hash.rs`), parsing TOML
(`src/rretl_map/toml_doc.rs`), UTF-8 checking and lossy decoding
(`src/utf8.rs`), and the debug form of strings (`src/text.rs`). The doc comment
above each such function says what is claimed of it.
