# ue_audio

The decisions of an editor's audio engine, verified with Verus.

- `src/mixer.rs`: when a clip sounds on the timeline and at which relative
  frame, the fade ratios that scale its gain, the plan of contributions for a
  timeline frame, and the filling of an interleaved stereo buffer frame by
  frame.
- `src/items.rs`: a plain model of a project (sequences, tracks, clips,
  assets), the selection of the audible clips of a sequence (mute, solo,
  audio channels), and the sorting of collected clips into loaded items and
  skipped assets.
- `app/`: the floating-point side (gains in dB, sample arithmetic, speed
  resampling, clamping) and the conversion from the editor's project model.
- `tests/`: the mixer and selection scenarios, and exact values of each
  decision.
