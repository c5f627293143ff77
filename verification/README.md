# palettify

Remaps the colours of images onto a palette.

- `src/` — the verified library: palette-file parsing (`palette`, `text`),
  the 64³ colour lookup table (`lut`), palette deduplication (`dedup`),
  the per-pixel remapping and image scaling (`image_processing`) and the
  output file naming (`naming`).
- `app/` — the command-line program: argument parsing, image decoding and
  encoding, the floating-point colour interpolations, and the directory
  worker.
- `tests/` — tests of the library.
