# ryleigh_banff

The integer core of a generative alpine-scene painter, verified with Verus.

- `src/rng.rs`: the xorshift32 generator every random choice is drawn from.
- `src/sky.rs`: which of the four skies a scene gets.
- `src/canvas.rs`: the RGBA8 canvas, bounds-checked writes and edge-clamped reads.
- `src/oil.rs`: the oil-painting filter (dominant brightness band per window).
- `src/texture.rs`: the hash behind the canvas weave.

`app/` holds the floating-point scene rasteriser and the WebAssembly entry
points built on that core.
