# musical_key_cnn

Musical key detection with the MusicalKeyCNN model (24 Camelot classes).

`src/` is the verified library, proved with Verus:

- `key` — Camelot keys, the class-to-key mapping and the key labels;
- `estimate` — validation of the model's logits and ranking of the class
  probabilities (floats are handled by their IEEE 754 bit patterns, `ieee`);
- `detector` — the key detector, PCM validation and batch checks;
- `chunk` — the partition of a spectrogram into balanced 512-frame windows;
- `magnitude`, `framing` — the matrices, octave bands, frame windows and
  octave stacking of the constant-Q transform;
- `backend` — which models to load and which one runs a track.

`app/` is the command-line program: audio decoding, the floating-point
signal processing and softmax, model inference and JSON output.
