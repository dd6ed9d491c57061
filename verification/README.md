# exifinf-rs

Metadata extraction and metadata stripping for JPEG, TIFF, PNG and ISO BMFF
(QuickTime, MP4, HEIC) files, written in Verus. Tag names and value formatting
follow a subset of ExifTool's conventions.

## Layout

- `src/` — the library. Every parser and stripper is an executable function whose
  result is pinned down by a specification over byte sequences (`Seq<u8>`), and
  Verus proves each body against it:
  - `detect`, `bmff`, `byteorder`, `bebytes`: file-type detection, box headers and
    big/little-endian fields;
  - `tiff`, `jpeg`, `png`, `qt` (with `qt_tags`, `iso6709`): the readers, which
    append `TagRecord`s to a `Metadata`;
  - `jpeg_strip`, `png_strip`, `qt_strip`: the strippers; `qt_strip` also lowers
    chunk offsets and HEIF item locations when `mdat` moves;
  - `printconv`, `gps`, `value`, `tables`: value display and tag tables.
  Laws that span several functions are public proof functions (`lemma_*`), for
  instance that stripping never makes a file longer (`lemma_strip_never_grows`; for
  an ISO BMFF file this needs the boxes kept inside a HEIF `meta` to lie within their
  parent boxes, `qt_strip::heif_meta_fits`), that stripping a stripped file changes
  nothing (`lemma_strip_idempotent`; for ISO BMFF under the same premise, and when the
  first strip did not move the first `mdat`), that more keep-options keep more
  (`lemma_strip_keeps_more`), that a lowered HEIF item location reads back as the old
  offset less the shift (`qt_strip::lemma_iloc_store_lowers`), and that what a stripper keeps is exactly what its
  keep-rule selects (`png::lemma_strip_keeps_kept_chunks`,
  `jpeg::lemma_strip_keeps_kept_segments`).
- `app/` — the command-line program and the WebAssembly bindings: file I/O,
  floating-point display and JSON conversion, around the library.
- `tests/` — tests on concrete files built in memory.

`flate2` inflates compressed PNG text chunks; that call is the one trusted item
that reaches an outside crate (`png::zlib_decompress`).
