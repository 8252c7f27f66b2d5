# maolan_plugins

The decision logic of the Maolan audio plugins (a sampler, a reverb and a
random-note ear trainer), written in Verus and proved against its contracts.

- `src/` is the verified library:
  - `common/` — a bounds-checked byte reader, filter kinds and text helpers
    (trimming, lower-casing, decimal numbers).
  - `random/` — the note picker of the ear trainer and its saved state.
  - `reverb/` — the reverb editor's channel modes.
  - `sampler/` — instrument formats and loading decisions, parameters,
    the zone list and its editing (dragging, dropping files, deleting,
    renaming), MIDI decoding, and under `dsp/` the SF2, SFZ, EXS and GIG
    readers, the SFZ preprocessor, tokenizer, region settings and exporter,
    group activation and keyswitches, voice allocation, modulation codes,
    processor routing and sample identity.
- `tests/` runs the library on concrete inputs.
- `app/` holds what the library leaves out: file and directory access,
  floating-point audio and formatting, serde state files, hashing of sample
  data and shared state between threads.
