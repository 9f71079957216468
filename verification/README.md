# equilibrium

A MIDI soundboard and EqualizerAPO switcher: keys of a MIDI controller switch
`Include:` lines of EqualizerAPO's `config.txt` on and off, and an overlay window
shows what happened.

- `src/` is the verified library: the `config.txt` reader and writer (`rack`), the
  keymap reader (`keymap`), the MIDI thread's decisions (`instance`, `midi`), the
  overlay's line store (`osd`, `text_line`), the tray and window-style rules
  (`tray`, `platform`), the sound book (`sounds`), and the text and number
  helpers they share (`text`, `number`, `paths`). Laws of the file format and of
  the display are proved in `rack_laws` and `laws`.
- `app/` is the program around it: the eframe window, the tray icon, the MIDI
  connection, audio playback and file input/output.

Sound playback is not reachable as things stand: a keymap entry names a rack include
and nothing else, so no key ever starts a sound. What a key press on a sound would do
is in `sounds`: a press harder than 60 plays it, a softer one stops all its playbacks,
and a reset reports once per sound that was playing. The MIDI thread keeps its audio
outputs and handles in step with that book.
