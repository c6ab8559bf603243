# delay_core

A multi-tap (FIR) delay: one delay buffer, N read taps at different times, each
scaled and panned, summed and mixed with the dry signal. Per-tap amplitude and
pan come from *lanes*: a source shape sampled by the taps, with per-tap detach
overrides.

- `src/` is the verified library (Verus). It holds the parts of the delay that
  are not floating-point arithmetic, with their contracts and laws:
  - `buffer`: the circular delay line, generic over the sample type; its view
    is the history of written samples, newest first.
  - `lane`: the lane link/detach model and the tap-count rule (removed taps
    keep their state and come back with it).
  - `roster`: the engine's tap-slot lifecycle (removed taps fade out and are
    dropped only once faded).
  - `timing`: exact note-division lengths for tempo sync.
  - `axis`: which taps get a label on the time axis.
- `app/` is the plugin around it: the floating-point signal path
  (interpolated reads, pan law, smoothing, limiter, engine, curve shapes), the
  parameters, and the editor.
- `tests/` exercises the library.
