# zebra_curve_transform

Tools around the spline oscillator curves of u-he Zebra(lette) 3: the Curve
Jumbler web app (load, transform, play and export curves) and the logic of the
Curve Sampler / Curve Extractor capture plugins.

- `src/` is the verified library (Verus): the clipboard curve format with its
  round-trip laws, exact preset curves, the random generator, the capture ring
  buffer and trigger, held-note bookkeeping, chord tracking decisions, the
  index work of the spectral transforms, the web app's session state and the
  export file names.
- `tests/` exercises the library on concrete values.
- `app/` is the program: egui UI, Web Audio playback, and all floating-point
  work (Bézier evaluation and fitting, FFT transforms, sample analysis).
  Coordinates travel between the two as `f32` bit patterns, which is also how
  the clipboard format writes them.
