# uniblake

BLAKE2b with eager absorption specified as interface behaviour, and a
shared-prefix fast path built on it, verified with Verus.

- `src/spec.rs`: the model. The compression function, the parameter block,
  the chain of compressed blocks and the digest of a computation, as spec
  functions over sequences of words and bytes.
- `src/compress.rs`: the compression function, proved equal to the model.
- `src/params.rs`: the parameter builder; `to_state` and `to_state_keyed`
  start a computation.
- `src/state.rs`: the streaming state, with a type invariant tying its fields
  to the model. Its contract says which message it has absorbed, how much of
  it is compressed (all but the last 1 to 128 bytes), how many compression
  calls an update made, and that `finalize` returns the model's digest.
- `src/laws.rs`: properties of the library as a whole: eager absorption, the
  one-compression condition that `prefix_check` decides (as a count of
  compression calls and as the form of the final chaining value),
  concatenation of updates, digest length, and injectivity of the parameter
  block.

`tests/oracle.rs` compares digests with `blake2b_simd` across the parameter
space.
