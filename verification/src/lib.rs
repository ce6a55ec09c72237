//! The verified core of a WebGPU breakout game: mesh topology, the brick
//! slot table of the renderer, paddle shape selection, the GPU index buffer
//! layout, and the values the game declares to its runtime shell.
use vstd::prelude::*;

pub mod buffers;
pub mod paddle;
pub mod slots;
pub mod topology;

verus! {

/// Rendering backend value of the runtime protocol: `0` is 2D, `1` is WebGPU.
pub const BACKEND_WEBGPU: u32 = 1;

/// Hosting mode value of the runtime protocol: `0` is hosted, `1` is self-managed.
pub const HOSTING_HOSTED: u32 = 0;

/// The rendering backend this game asks the shell for: WebGPU.
pub fn render_backend() -> (backend: u32)
    ensures
        backend == BACKEND_WEBGPU,
{
    BACKEND_WEBGPU
}

/// How this game is hosted: the shell owns the loop and the input (hosted).
pub fn hosting_mode() -> (mode: u32)
    ensures
        mode == HOSTING_HOSTED,
{
    HOSTING_HOSTED
}

} // verus!
