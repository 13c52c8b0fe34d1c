# niri-tablet-easysetup

A configurator for niri-tablet touchscreen gestures: it finds the `gestures {}`
block of a niri config (following `include` lines), shows each slot's action,
lets the user pick new ones, and writes the block back.

The library in `src/` is verified with Verus:

- `kdl` — the KDL subset niri configs use: lexer, parser, renderer and the
  span scanner that cuts a top-level node out of a file; `kdl_laws` proves
  that rendered nodes parse back to themselves, and `kdl_parsed` that every
  node parsing gives back, at any depth, renders back to itself.
- `model` — the gesture model, reading it from a `gestures` node and writing
  it back; `model_laws` proves the save/reload round trip.
- `catalog`, `editing` — the curated niri actions (their names are distinct
  and every action renders back) and the editors' values.
- `export` — the versioned scheme snapshot used for JSON export and import.
- `discovery`, `store` — where the gestures live and what saving does to
  config files.
- `apps` — desktop entries: parsing, filtering, de-duplication and order.
- `niri` — command lines for `niri` and what their outcomes mean.

`app/` holds the program around it: process and file I/O, the JSON
encoding of schemes and the GTK interface.
