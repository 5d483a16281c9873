# wboit_splats

A demonstration of order-independent transparency on Gaussian splat scenes, in eight modes from
sorted alpha blending to depth-sliced optical depth.

- `src/` is the library, verified with Verus: the back-to-front sorts, the importance order and
  the trimmed bounds of a splat scene, the bins of the baked priors, the tile grid and the
  readback layout, the passes of a frame, the state of renderer, camera, scene and window, the
  benchmark's steps, and the command line. Numbers that the machine computes in floating point
  are carried as their bit patterns; `src/ieee.rs` says what number a pattern is and how patterns
  are ordered.
- `src/laws.rs`, and the public proof functions of the other modules, state what holds of the
  library as a whole.
- `tests/` runs the library on concrete values.
- `app/` is the program around it: the window, the device, the sorting thread, and the
  floating-point geometry. It reads its shaders from `shaders/`.

Usage: `wboit_splats [SCENE.ply] [--benchmark [VIEWS]] [--seed SEED]`
