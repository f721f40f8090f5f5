# raytracer

A small progressive ray tracer that draws into a window.

- `src/` is the verified library: the frame buffer (`image`), its cutting
  into a 20 by 20 grid of blocks that render threads fill and store back,
  pixel packing, the byte layout of rendered lines and frames, the job queue
  and the window's event decisions, with the laws that tie them together
  (`laws`).
- `app/` is the program around it: the floating-point ray tracing itself
  (vectors, spheres, materials, camera, scene), the render threads and the
  window event loop.
- `tests/` runs the library on concrete values.
