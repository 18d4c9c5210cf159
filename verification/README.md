# beetle

The engine core of Beetle, a BMS rhythm-game player, as a Verus library:
the functions in `src/` carry `requires`/`ensures` contracts that Verus
proves (the one exception is the audio clock's read of the sample counter,
whose value the audio thread decides), and the properties that span several
calls are stated and proved as public proof functions (`lemma_*`).

## Layout

- `src/bms.rs` — BMS chart parsing: headers, `#WAV`/`#BMP`/`#BPM`/`#STOP`
  tables, measure lines, long notes (LNTYPE 1 and `#LNOBJ`), play-mode
  detection. Positions are exact rationals.
- `src/judge.rs` — judgement grades, EX score, gauges (easy, groove, hard,
  hazard) and the score tracker.
- `src/modifier.rs` — mirror, random, R-random and S-random lane modifiers
  driven by a XorShift generator.
- `src/image.rs` — BMP decoding and encoding, PNG and JPEG decoding through
  the `png` and `jpeg-decoder` crates, image buffers and scaling.
- `src/input.rs` — key codes, the two built-in layouts, custom bindings and
  their text form.
- `src/menus.rs` — key handling of song select, the play-options modal, the
  key-configuration screen, the pause overlay, the result screen, the global
  hotkeys and the hotkeys during play.
- `src/video.rs` also chooses a chart's fallback video files.
- `src/library.rs`, `src/score.rs`, `src/labels.rs`, `src/ui.rs`,
  `src/font.rs`, `src/video.rs`, `src/audio.rs`, `src/skin.rs`,
  `src/table.rs`, `src/text.rs` — song library hash, cache fields and
  filter; clear lamps and the store of personal bests; list labels; menu cycles; bitmap
  font metrics; video file recognition; the audio clock; colours; id tables;
  text helpers.
- `app/` — a command-line front end (file I/O, audio decoding with `hound`
  and `lewton`, timing and configuration that work in floating point).
- `tests/` — tests run against the compiled library.
