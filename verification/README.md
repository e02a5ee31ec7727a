# sketches

Verified building blocks for a family of interactive piston graphics
sketches, plus the sketches themselves.

- `src/` — the library, verified with Verus:
  - `fps` — `FPSCounter`, which records frame times from the monotonic clock
    and reports how many frames fell within the last second;
  - `pixel` — saturating channel narrowing and grey-pixel helpers;
  - `array` — moving a vector of known length into a fixed-size array;
  - `hilbert` — the sixteen-cell walk drawn by the Hilbert-curve sketch;
  - `rays` — the wrapping stride of the ray-casting sketch.
- `tests/` — tests of the library on concrete values.
- `app/` — the sketches (run one by name, e.g. `hilbert_curve`), and the
  floating-point vector, matrix and colour code they draw with.
