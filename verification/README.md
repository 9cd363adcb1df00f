# atbswp

Records mouse and keyboard input as a macro and exports it as a standalone
executable: the portable player with the macro stored as the uncompressed zip
entry `macro.bin`.  Macros also have a binary payload form (`.atbswp`) and an
editable text script form.

## Layout

| Path | What |
|------|------|
| `src/format.rs` | The binary payload: 32-byte header, 16-byte events; `Macro::load` detects every form. |
| `src/zip.rs` | Stored-zip reading, appending and removing of entries, CRC-32. |
| `src/exe.rs` | Player plus macro: build, extract, strip. |
| `src/text.rs`, `src/keys.rs` | The text script: parser, renderer, key and button names. |
| `src/key_order.rs` | The key table in name order: proof that its names are distinct and read back as their codes. |
| `src/roundtrip.rs` | Proof that a rendered script parses back to the same macro. |
| `src/record/` | Recorder logic: the event builder, evdev decoding, touchpad click synthesis, XRecord data, the Wayland merge of cursor samples and evdev, SPA pods. |
| `src/cli.rs`, `src/settings.rs` | Argument parsing and the settings file. |
| `app/` | The `atbswp` command: files, processes, X11 and `/dev/input`. |
| `tests/` | Tests of the library. |

Every function in `src/` carries a contract that Verus proves; the laws
(`law_*` proof functions) state what holds across calls: what is appended to
an archive reads back, a built executable yields its macro and its player, a
payload decodes to what was encoded, `Macro::load` reads both back, a script
parses to what was rendered, a key or button name (or a decimal code) reads
back as its code, saved settings load back, coalescing neither loses nor
invents relative motion over a whole recording, no absolute move repeats the
last position, a touch clicks exactly when it is short, still and unpressed,
the stop key is never recorded and nothing stays held at the end of a
recording.
