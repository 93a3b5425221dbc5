# squircle

Readers and writers for rhythm-game map files (SSPM versions 1 and 2, and
PHXM archives), verified with Verus.

- `src/` is the verified library. It works on in-memory byte buffers and keeps
  every floating-point value of a format as its IEEE-754 bit pattern.
  - `io`: a little-endian binary reader and writer over byte buffers, with a
    spec of what each read gives at each position.
  - `sspm`: decoding both SSPM versions and encoding version 2; `sspm::laws`
    proves that reading back a written file gives the map back.
  - `phxm`: the PHXM objects file, the archive's entries and metadata; the
    zip container and type detection go through the `zip` and `infer` crates.
  - `map`, `objects`, `types`, `text`, `codec`: the values and helpers these
    share. `laws` holds what the reader gives back of what the writer wrote.
- `tests/` runs the library on concrete files.
- `app/` holds what the library leaves out: `f32` positions and ratings, file
  and stream access, and the JSON form of PHXM metadata.
