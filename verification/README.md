# game

A WebGPU breakout game for a browser runtime shell, split in two:

- `src/` — the verified library (Verus):
  - `topology`: the triangle lists of the sphere/hemisphere grid, the unit
    box and the skateboard paddle, each proved well formed (every index names
    a vertex, whole triangles, no repeated corner) and given exactly.
  - `slots`: the renderer's brick slot list (stable indices, vacated slots,
    in-place updates of live bricks, live indices in order) and its laws.
  - `paddle`: the mesh and scale factors chosen for each paddle kind.
  - `buffers`: the bytes and count of a GPU index buffer (through bytemuck).
  - `lib.rs`: the backend and hosting values declared to the shell.
- `app/` — the WebAssembly exports, the rapier2d physics world, the wgpu
  renderer and the floating-point vertex geometry, calling the library.
- `tests/` — tests of the library on concrete values.
