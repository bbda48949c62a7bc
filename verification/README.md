# diskann_provider

Storage side of a simulated DiskANN search over a mini-redis key-value server
and over `.bin` vector files.

- `src/` is the verified library (Verus):
  - `bin_format`: the `.bin` layout (header of two little-endian `u32`s, then
    the vectors row by row): header encoding and decoding, splitting a file
    image, building written and freshly created images, vector offsets, and
    the laws that relate them.
  - `keys`: decimal formatting and the `"<prefix>:<id>"` keys of vectors,
    with the proof that distinct ids get distinct keys.
  - `provider`: the key and dimension decisions of a vector provider.
  - `ffi_async`: the waker handle and the poll decisions of the
    callback-driven futures.
  - `sampling`, `diskann`: random vectors, random probe ids, and the count of
    stored vectors.
- `app/` is the program around it: the async mini-redis providers, the
  DiskANN driver, file I/O, the foreign-function futures and everything that
  computes with `f32`.
