# rasa

The core of a layered image editor, with its behaviour stated in Verus
contracts and proved.

## Layout

- `src/` — the verified library:
  - `document`, `command`, `layer`, `pixel`: the layered document, its edits
    and their undo/redo history, pixel buffers;
  - `compositor`, `tools`, `apply`, `render`, `selection`: flattening layers,
    flood fill, cropping, putting AI results into layers, render tiles,
    selection bounds (floating-point blending and tests are handed in as
    closures);
  - `project`, `psd`, `tiff`, `format`: the native project file framing, flat
    PSD and CMYK TIFF layouts, image formats and export settings;
  - `session`, `mcp`, `tool_defs`, `batch`: the documents of a tool-server
    session, the tool server's tools, argument parsing and request planning,
    batch results;
  - `pipeline`: the steps of an AI inference run (progress, cancellation,
    which backend call and which decoding), driven by the caller;
  - `bits`, `color`, `geometry`, `ids`, `text`, `error` and the smaller
    modules: shared values and helpers.
- `app/` — the tool server program (JSON-RPC over stdin/stdout) and all
  floating-point pixel work, file I/O and serde, around the library.
- `tests/` — tests of the library.

Real numbers are held in the library as the bit patterns of `f32`/`f64`.
