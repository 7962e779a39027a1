# band

Drum transcription from audio: a verified core library, and command-line tools around it.

- `src/` is the library, written in Verus. Every function carries a contract that Verus
  proves: the audio input abstraction and its resampler, sliding analysis windows, the
  rolling frame window, MIDI drum hits and frame labels, the on-disk track format, the
  dataset indexes and batches, and the state of the live onset display. Calls into
  `rubato`, `midly`, `rand` and `ndarray-npy` go through small trusted wrappers whose contracts state what
  those crates' sources show.
- `app/` holds what the library leaves to its callers: argument parsing, file I/O,
  audio decoding (`symphonia`), the floating-point signal processing (Hann window, FFT
  with `realfft`, mel filterbank), and live capture through `cpal`.
- `tests/` runs the library on concrete inputs.

Commands of the tool in `app/`:

- `preprocess -i <dataset> -o <processed>`: turns each E-GMD recording and its MIDI file
  into a processed track (mel frames with onset and active labels per drum class);
- `index -i <processed>`: indexes the processed tracks into training chunks, splits them
  into training and validation samples, and reads one batch back;
- `index-npz -i <root>`: indexes the npz archives of the `train` and `valid` splits of a
  dataset into training chunks, and reads the first chunk back;
- `list-sources`: lists the audio input devices and shows their activity.
