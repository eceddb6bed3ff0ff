# docscan

The pixel-level core of a browser document scanner, verified with Verus.

- `src/image.rs`: `RGBAImage`, four bytes per pixel, with its size kept as a
  type invariant.
- `src/perspective.rs`: the choice of the output rectangle (upright or turned
  by a quarter) and the sampling loop of the perspective warp: every output
  pixel is opaque, blended from the four source pixels around its sample
  point, or white when that point has no right or lower neighbour.
- `src/corners.rs`: the scan that picks the point nearest to a corner, and the
  proof that it picks the first nearest point.
- `app/`: the WebAssembly bindings and the `f32` geometry (projection matrices,
  distances, bilinear weights), which hand plain values to the library.
