# decibri-aec

Real-time acoustic echo cancellation with proved decisions.

The library in `src/` is written in Verus. It carries audio samples and measured
quantities as the bit patterns of their IEEE 754 values and does everything that
moves, compares, counts or decides: the reference ring and the absolute sample
grid, the coarse and fine delay searches, the acquisition that joins them, the
tracker, capture continuity, the output ramp, and the framing, detector and
two-path decisions of the block canceller. Each function's contract says what it
returns and changes, and the promises that span functions, or a whole stream of
calls, are public proof functions named `lemma_*`.

Floating-point arithmetic is the host's. `app/` is a host over `f32` audio: it
computes the transforms, correlations, filter updates and smoothed powers that
the library asks for, step by step, and hands the results in.

| Module | What it holds |
|---|---|
| `sample`, `timing` | bit patterns and their order; durations in samples |
| `config`, `error` | the configuration, its validation, the error messages |
| `ring` | the far-end history by absolute index |
| `delay` | the fine estimator and the delay snapshot |
| `coarse` | the decimated global scan |
| `acquire`, `track`, `lead` | the acquisition ladder, the tracker, the learned lead |
| `fft` | the transform's permutation and butterfly schedule |
| `canceller`, `tau` | the canceller's metrics, framing, detector and block steps |
| `engine` | alignment, seams, events and the output ramp |
| `stream` | what holds of the engine over a whole stream of calls |
| `passage` | what holds of the canceller over a whole stream of calls |
| `session` | what holds of the two together: every near sample is delivered once |

Sample counters stop short of overflow: `has_room_for`, `has_room_to_feed`,
`has_room_for_frame` and `has_room_for_block` say whether there is room for more.
