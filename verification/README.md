# wizard-editor

The core of a non-linear video editor, written in Rust and verified with Verus:
what each function does is stated in `requires` and `ensures` clauses, and proved.

## Layout

- `src/` is the library.
  - `timeline/`: tracks and clips; making room, moving, trimming, linking, removing.
  - `project`, `clip`, `tag`, `selection`, `undo`, `browse`, `order`: the project, its media
    files, what is selected, and how the browser searches, filters and sorts.
  - `playback`, `keyboard`: the transport.
  - `engine/`: which pipelines run, which frame is shown, when the clock waits, and what is
    kept for rewinding.
  - `media/`: pacing, seeking, letterboxing, thumbnails and import rules.
  - `audio/`: samples, rings, mixing, fading, resampling and waveform peaks.
  - `workers/`: the queues of the background threads and what becomes of their results.
  - `panel/`: the arithmetic and the decisions of the interface.
  - `debug_log`, `text`, `time`, `ids`: what the others share.
- `tests/` runs the library on given values.
- `app/` is the editor itself: windows, decoders, the sound card, threads and files. It
  asks the library what to do and does it.

## Units

Times are nanoseconds in an `i64`. Lengths on the screen are thousandths of a point,
speeds and zoom are thousandths, fractions are millionths, and sound samples are
fixed-point numbers with 24 fractional bits. Decoders, textures and paths appear in the
library as numbers that the application hands out.

## What is taken on trust

Random identifiers (`uuid`), the ring between two threads (`ringbuf`), lower case, which
characters are white space, appending to a string and the last component of a path (`std`). Each stands in one
small function with its contract, and its comment says what is claimed.

Laws that relate several functions are the public proof functions named `law_*`.
