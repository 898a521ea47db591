# dsp_test

Verified building blocks of a guitar-effects processor and of its
ESP32 controller board.

- `src/delay_line.rs` — a generic delay line (the buffer behind the echo and
  modulated-delay effects): reads back the sample pushed `delay` steps ago,
  keeps at most its room, and grows its room when the delay is raised.
- `src/effects.rs` — which effect a configuration entry names, how many
  arguments each effect reads, and the band layout of the equaliser.
- `src/segments.rs` — the seven-segment digits of the controller's display
  and the charlieplexed pin operations that light them.
- `src/firmware.rs` — the codec bring-up sequence and the fatal-error
  answer of the firmware.
- `app/` — the host program (JACK audio, WAV files, HTTP configuration), the
  floating-point effects themselves, and the board-side executors of the
  display and codec plans.
