# Sonema

A compact audio workstation for recording, arranging and mixing a song into
a deliverable WAV file. The core of the program is the `sonema` library,
written in Verus: its functions carry `requires`/`ensures` contracts that the
verifier proves.

## Layout

- `src/` — the verified library
  - `model`, `media`, `project`: the project model (tracks, clips, media
    registry) and its abstract views; floating-point settings are kept as
    their IEEE-754 bit patterns.
  - `construct`, `lookup`, `order`, `edit`, `validate`: creating projects,
    finding tracks and clips, timeline order, the editing rules (insert,
    move, split, trim, duplicate, remove) and the project's validity rules.
  - `history`: bounded undo/redo with transactions.
  - `bytes`, `container`, `round_trip`: the `.sonema` container (header,
    JSON manifest, planar PCM, FNV-1a checksum) and the proof that reading
    back a written file gives the audio back.
  - `source`: decoded PCM and its shape rules.
  - `session`, `timeline`, `recording`, `devices`, `wav`, `text`, `clock`,
    `workflow`: what playback and export are built from, clip dragging,
    record arming, the transport clock text, device listing, WAV export
    choices, file-name rules, identifiers and time, and guarding unsaved
    changes.
- `tests/` — tests run against the compiled library.
- `app/` — the desktop program: window (egui), audio devices (cpal),
  decoding (symphonia), signal processing, file I/O and JSON.
