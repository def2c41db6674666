# MIDI inspector

An audio effect that passes its audio through, forwards MIDI and shows a
scrolling log of every event it receives.

- `src/` is the library, verified with Verus: the capture ring (`ring`), the
  decoding of events into text (`interpret`, with numbers as text in `text`,
  `decimal`, `digits`, `double` and `shortest`), what the effect forwards
  (`plugin`), the editor's state and rows (`ui`), and what holds of all of them
  together (`laws`).
- `app/` is the plugin around it: parameters, audio callback and widgets. The
  audio thread and the editor share the ring through a blocking lock, so the
  handoff is not lock-free.
- `tests/` runs the library.
