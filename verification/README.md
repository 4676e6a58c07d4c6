# tuner

The verified core of a guitar tuner, written in Verus.

- `src/note.rs`: pitch classes, MIDI notes, note labels (`"A#3"`) written and read.
- `src/tuning.rs`: the tuning presets, their keys and aliases, string lookup.
- `src/audio.rs`: framing of a sample stream into overlapping frames.
- `src/smoothing.rs`: the bounded window of recent readings.
- `src/bridge.rs`: the registry of detectors that a host drives by id.
- `src/text.rs`: the character handling that labels and keys need.

`app/` holds what works on floating-point samples and frequencies (pitch
detection, cents, preset matching), microphone capture through `cpal`, and
the process-wide registry with its `wasm-bindgen` exports.
