# Tributary

A multi-track recording console: strips, buses, effects, instruments, takes.
This crate is its logic, verified with Verus. What every function does is stated
in its `requires` and `ensures`; what holds of the library as a whole is stated in
the public proof functions.

## Layout

- `src/console` — the document: strips, buses, effects, instruments, output
  patches; the commands that change it; the signal graph. `laws.rs` holds what
  every command keeps, `ids.rs` that no id is handed out twice.
- `src/engine` — the document compiled for the audio thread: where channels lie in
  the frames, the steps of the mix, dispatch of control moves, the instrument rack,
  meters, recording and playback, and the rings to the control side. `call.rs`
  holds what a whole callback comes to, `listening.rs` what listening before the
  faders changes.
- `src/audio` — devices: cards and streams, what the Pulse server lists, the
  assembly of input frames and the scattering of output frames, stalls and
  scheduling.
- `src/project` — what is on disk: sessions, takes, FLAC, peaks, MIDI sidecars.
- `src/text.rs`, `src/bytes.rs`, `src/seqs.rs`, `src/json.rs`, `src/single.rs` —
  what the rest is written with. `Single` is a 32-bit float as its bits: the
  library carries samples, compares them and routes them, and does no arithmetic
  on them.
- `app` — what cannot be verified: arithmetic on floats, files, threads, devices,
  the wire format. It asks the library what to do and does it.
- `tests` — the library, run.

## What is trusted

Calls into other crates stand behind small functions marked `external_body`; the
doc comment of each says what it claims. They are in `engine/ring.rs` (`rtrb`),
`engine/instrument.rs` (`rustysynth`), `json.rs` (`serde_json`),
`project/sidecar.rs` (`midly`), `project/flac.rs` (`flacenc`), and
`project/naming.rs` and `text.rs` (std).
