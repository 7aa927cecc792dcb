# Rivett

Rivett is a fast image viewer for photo folders: it lists the images of a
folder (or, through its SQLite library, the rated images of every folder),
steps through them without wrapping, keeps ratings, bookmarks, notes, tags
and rotations, shows EXIF and AI-generation metadata, and saves rotations
losslessly for JPEG.

This crate is its verified core, written in Verus. Every function under
`src/` carries a contract that Verus proves, except thirteen small wrappers marked
`#[verifier::external_body]` around calls into std, `serde_json`,
`kamadak-exif`, `img-parts`, `image` and `png`: their contracts are trusted, not
proved, and each one's doc comment says what it claims.

- `src/listing.rs`, `order.rs`, `paths.rs`, `formats.rs`: the folder listing,
  its cursor, rating filters, sorting and path comparison.
- `src/tiff.rs`, `dng.rs`, `tiles.rs`, `jpegedit.rs`, `camera.rs`: byte-level
  TIFF/EXIF/JPEG work (embedded previews, DNG tiles and strips, the
  Orientation tag, EXIF curation).
- `src/meta.rs`, `prompt.rs`: metadata entries and AI prompts (A1111 and
  ComfyUI).
- `src/records.rs`, `purge.rs`, `health.rs`, `consolidate.rs`, `summary.rs`:
  database records and the utility windows' state.
- `src/controls.rs`, `rotation.rs`, `lru.rs`, `textures.rs`: keyboard
  actions, save plans, texts shown, rotations, and the image and texture
  caches' bookkeeping.

`app/` is the command-line front end: file and database I/O, pixel
decoding and the floating-point formatting. `tests/` holds the tests.
