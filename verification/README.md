# Lumen built-ins

The built-in library of the Lumen JavaScript engine, written and proved in Verus.

A built-in decides and computes; reading a property, calling a function or allocating an object
is the engine's work. A built-in asks for such work through `interp::Interp`, which keeps a
transcript of questions and answers. The contract of a built-in says, as a function of its
arguments and of the answers, what it asks, in which order, and what it returns or throws. An
engine runs a built-in again with one more answer until no question is open.

- `src/` is the verified library. `interp.rs` holds values and the transcript. `install.rs` says
  which function object an engine gets under which name, each with the built-in that it does the
  work of (`builtin.rs`), and `dispatch.rs` says what that work is. The internal data of an object
  is in `slots.rs` and the state of an iterator in `states.rs`; both stay with the engine between
  calls, and `slots.rs` answers the questions about collections. The other modules
  hold one family of built-ins each (objects, proxies, arrays, iterators, collections, strings,
  regular expressions, promises, generators), or what they stand on (`num.rs`: Numbers as bits,
  `string.rs`: code units, `descriptor.rs`: property descriptors), the syntax tree with its
  scans (`ast.rs`, `retained.rs`), the caches (`cache.rs`), the hash
  index of caches and collections (`places.rs`) and the locale tables (`cldr_*.rs`).
- `tests/` runs the library, much of it against a small engine in `tests/engine.rs`.
- `app/` holds the loop that drives an engine, and what is computed in floating point.
