# vidya

A theme layer for egui, a retained widget tree for C callers, an inline
H.264-in-MP4 player and a bridge for UIs written in Gleam — with the logic
underneath verified by Verus.

## Layout

- `src/` — the verified library. Each module states its behaviour in
  `requires` / `ensures` contracts and proves it:
  - `tree` — the node arena behind the C ABI: handles, parenting, acyclicity,
    subtree removal with slot reuse, props and the event queue;
    `props` — typed prop reads and the painter's small decisions;
  - `avcc` — AVCC (length-prefixed) to Annex B conversion with parameter-set
    injection before IDR slices;
  - `mp4_probe` — opening an H.264-in-MP4 file from the tracks the demuxer
    found: the choice of track, the refusals, the converter for its samples,
    and the cursor that says which sample to feed next;
  - `icons`, `emoji_pack` — emoji shortcuts, Twemoji file keys and lookup
    candidates, and the glyph pack read from a ZIP archive;
  - `app_icon` — PNG decoding to RGBA for window icons and emoji textures;
  - `shell` — the Gleam shell's opcode protocol and its widget layout;
  - `host_string` — Gleam strings in Wasm linear memory (reading and
    storing them), and the host arena;
  - `demo` — the showcase's sections, command line and calculator keypad;
  - `hotkeys`, `layout`, `theme`, `gleam`, `video`, `ffi`, `text` — labels,
    fixed-width metrics, mode codes, icon names, player decisions, buffer
    truncation and string helpers.
- `tests/` — tests of the library on concrete values.
- `app/` — the painting side in plain Rust: egui widgets, layout and theme
  (sizes are floats), the video player's clock, the MP4 header parse and the decoder, the Gleam view renderer,
  the tree painter and the hooks that hold the guest's functions.
