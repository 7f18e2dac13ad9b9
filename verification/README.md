# yassy

The control side of a small polyphonic LV2 synthesizer, verified with Verus.

`src/` is the verified library:

- `midi`: reading note-on, note-off and note numbers from MIDI messages.
- `observer`: values with watchers; a change queues one delivery per
  watcher, which the caller hands to the receiver's `Observer::next`.
- `midiproc`: the note stack and note slots that turn MIDI messages into
  note-on and note-off events; `slot_laws` proves when the slots never run
  out.
- `polyphony`, `voice`: which oscillator plays for which voice, and how many
  notes may sound.
- `synth`: a one-voice synthesizer with last-note priority.
- `oscillator`: the integer phase accumulator and the folded index of the
  band-limited impulse train.
- `plugin`: the parameters, the wiring of the parts, and the path of a MIDI
  message or a switch through the note slots to the voices.
- `lv2_plugin`, `ui`: port routing, the MIDI events of an atom sequence, and
  the show/hide state of the interface.

`app/` holds the LV2 entry points, the floating-point sound generation, the
browser interface over a WebSocket, and the hand-over of the pitches and the
impulse train switch to the oscillators.
