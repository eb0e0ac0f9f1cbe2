# talk_with_anyone

Firmware for a small voice assistant: a microphone, a speaker, a 240x240 screen and three
buttons around an ESP32-S3, talking to a server over one WebSocket.

- `src/` is the device's logic, verified with Verus: the WebSocket framing (`ws`), the voice
  protocol (`voice_client`, `json`, `base64`), the guard over a round of conversation
  (`round`), what each server event does (`session`), the life of the connection (`link`),
  the main loop's state machine (`machine`), playback and capture (`audio_output`, `ring`,
  `audio_input`), subtitles and their line breaking (`display`, `wrap`, `font`), drawing and
  the panel (`render`, `raster`, `screen`), the clock (`ntp`) and the battery gauge (`battery`). Nothing in it touches
  hardware: it takes bytes, samples, button levels and times, and says what has to be done.
- `app/` is the firmware around it: bring-up, tasks, sockets, DMA, and what is computed in
  floating point (resampling, the volume curve, signal tones).
- `tests/` runs the library on concrete values.

Functions named `law_...` are proofs about several operations together: that a stream read
in pieces gives what it gives in one, that typing loses no character, that a closed round
stays closed, and so on.
