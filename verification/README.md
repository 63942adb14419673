# renarrator

The verified core of a background app that plays a sound when a trigger word
or phrase is typed anywhere on the system.

- `src/` is the library, verified with Verus:
  - `layout_map`: physical keys to their QWERTY / ЙЦУКЕН characters;
  - `buffer_manager`: the two input buffers, the pause timeout, and suffix
    matching of words and phrases (longest match wins), specified by the
    state machine `ManagerState::step`;
  - `sound_pick`: weighted random choice of a trigger's sound;
  - `text`: whitespace normalisation and character classes.
- `app/` is the program around it: the global keyboard hook (rdev), the audio
  thread (rodio), autostart in the Windows registry (winreg).
- `tests/` runs the library on concrete scenarios.

Times handed to the library are milliseconds on a monotonic clock.
