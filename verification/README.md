# Ara

Verified core of the Ara voxel engine (the engine behind the game Turi),
written in Verus.

`src/` is the library. Every function in it carries a `requires`/`ensures`
contract that Verus proves, and the laws that span several functions are
public proof functions.

- `morton`, `voxel`, `visibility`: bit-packed voxel, brick and
  visibility-buffer formats, and Morton addressing inside a brick.
- `brick_map`: CPU side of the sparse brick map (top grid, brick pool, free
  list, deferred reveals), with read-after-write and occupancy laws.
- `chunk_streamer`: which bricks stream in and out as the camera moves, and
  the per-frame job budget.
- `world`: chunk-atlas addressing, the chunks that enter view, and the
  readback queue.
- `light`: light-propagation scheduling and dirty-chunk marking.
- `registry`: block definitions, hex colors and the palette texture.
- `input`, `camera`, `render_modes`, `clipmap`, `raycast`, `ui`: input
  bindings, jitter sequencing, anti-aliasing state, clipmap update planning
  and grid addressing.

`app/` is the windowed client around the library: winit event loop, wgpu
passes, TOML asset loading, the floating-point camera, terrain height
function and ray cast. It loads its WGSL shaders at run time from
`assets/shaders/`.

`tests/` exercises the library on concrete values.
