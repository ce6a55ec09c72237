//! Which mesh the paddle is drawn with, and how its size scales that mesh.
use vstd::prelude::*;

verus! {

/// Paddle kind: a skateboard.
pub const PADDLE_SKATE: u8 = 0;

/// Paddle kind: a rugby ball.
pub const PADDLE_RUGBY: u8 = 1;

/// Paddle kind: a bowl.
pub const PADDLE_BOWL: u8 = 2;

/// The meshes the renderer holds.
#[derive(Clone, Copy, Debug, PartialEq, Eq, Structural)]
pub enum PaddleMesh {
    Sphere,
    Hemisphere,
    Skateboard,
    Cube,
}

/// The mesh drawn for a paddle kind: the rugby ball is a sphere, the bowl a
/// hemisphere, the skateboard the skateboard mesh, and any other kind a cube.
pub open spec fn mesh_of(kind: u8) -> PaddleMesh {
    if kind == PADDLE_RUGBY {
        PaddleMesh::Sphere
    } else if kind == PADDLE_BOWL {
        PaddleMesh::Hemisphere
    } else if kind == PADDLE_SKATE {
        PaddleMesh::Skateboard
    } else {
        PaddleMesh::Cube
    }
}

/// How the paddle's half width and half height scale its mesh: the mesh's
/// x axis is scaled by `width` times the half width, its z axis by `height`
/// times the half height.
#[derive(Clone, Copy, Debug, PartialEq, Eq, Structural)]
pub struct PaddleScale {
    pub width: u8,
    pub height: u8,
}

/// The scale factors for a paddle kind: the unit-radius rugby ball and bowl
/// take the half sizes as they are; the skateboard, whose deck spans two
/// units, takes the half width and twice the half height; a unit cube
/// (any other kind) takes twice both.
pub open spec fn scale_of(kind: u8) -> PaddleScale {
    if kind == PADDLE_RUGBY || kind == PADDLE_BOWL {
        PaddleScale { width: 1, height: 1 }
    } else if kind == PADDLE_SKATE {
        PaddleScale { width: 1, height: 2 }
    } else {
        PaddleScale { width: 2, height: 2 }
    }
}

/// The mesh the renderer draws for a paddle of kind `kind`.
pub fn paddle_mesh(kind: u8) -> (mesh: PaddleMesh)
    ensures
        mesh == mesh_of(kind),
{
    match kind {
        PADDLE_RUGBY => PaddleMesh::Sphere,
        PADDLE_BOWL => PaddleMesh::Hemisphere,
        PADDLE_SKATE => PaddleMesh::Skateboard,
        _ => PaddleMesh::Cube,
    }
}

/// The factors by which a paddle of kind `kind` scales its mesh.
pub fn paddle_scale(kind: u8) -> (scale: PaddleScale)
    ensures
        scale == scale_of(kind),
{
    match kind {
        PADDLE_RUGBY | PADDLE_BOWL => PaddleScale { width: 1, height: 1 },
        PADDLE_SKATE => PaddleScale { width: 1, height: 2 },
        _ => PaddleScale { width: 2, height: 2 },
    }
}

/// A mesh that spans one unit across (the cube) is scaled by twice the half
/// size, one that spans two units (sphere, hemisphere, skateboard deck) by
/// the half size itself: so every paddle is drawn as wide as twice its half
/// width.
pub proof fn lemma_paddle_width_matches_mesh(kind: u8)
    ensures
        scale_of(kind).width * (if mesh_of(kind) == PaddleMesh::Cube { 1int } else { 2int }) == 2,
{
}

} // verus!
