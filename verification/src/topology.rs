//! Triangle lists of the game's meshes.
//!
//! A mesh is drawn as an indexed triangle list: the vertex positions and
//! normals are floating-point data built beside this module, while which
//! vertices form which triangle is pure integer structure, stated and built
//! here.
use vstd::prelude::*;
use vstd::arithmetic::div_mod::{lemma_fundamental_div_mod, lemma_fundamental_div_mod_converse, lemma_mod_bound};

verus! {

/// Number of cross-section stations along the skateboard deck.
pub const SKATEBOARD_STATIONS: u32 = 20;

/// Latitude bands of each skateboard wheel (a small sphere).
pub const WHEEL_STACKS: u32 = 10;

/// Longitude sectors of each skateboard wheel.
pub const WHEEL_SECTORS: u32 = 14;

/// Number of wheels under the skateboard deck.
pub const WHEEL_COUNT: u32 = 4;

/// Quads of the deck: four sides between each pair of neighbouring
/// stations, and one cap at each end.
pub open spec fn deck_quads() -> int {
    4 * (SKATEBOARD_STATIONS - 1) + 2
}

/// Vertices of one wheel grid.
pub open spec fn wheel_vertices() -> int {
    (WHEEL_STACKS + 1) * (WHEEL_SECTORS + 1)
}

/// Indices of one wheel grid.
pub open spec fn wheel_indices() -> int {
    6 * WHEEL_STACKS * WHEEL_SECTORS
}

/// The triangle list of a mesh: its number of vertices and, three by three,
/// the vertex indices of its triangles.
pub struct Topology {
    pub vertex_count: u64,
    pub indices: Vec<u32>,
}

/// Whether the `t`-th triangle of `s` has three different corners.
pub open spec fn proper_triangle(s: Seq<u32>, t: int) -> bool {
    &&& s[3 * t] != s[3 * t + 1]
    &&& s[3 * t + 1] != s[3 * t + 2]
    &&& s[3 * t] != s[3 * t + 2]
}

impl Topology {
    /// A well-formed triangle list: a whole number of triangles, every index
    /// names an existing vertex, and no triangle repeats a corner.
    pub open spec fn wf(&self) -> bool {
        &&& self.indices@.len() % 3 == 0
        &&& forall|k: int|
            0 <= k < self.indices@.len() ==> (#[trigger] self.indices@[k]) < self.vertex_count
        &&& forall|t: int|
            0 <= t < self.indices@.len() / 3 ==> #[trigger] proper_triangle(self.indices@, t)
    }
}

/// Corner `m` (0 to 5) of the two triangles `(b, b+1, b+2)` and
/// `(b, b+2, b+3)` that cover a quad whose four vertices start at `b`.
pub open spec fn quad_corner(base: int, m: int) -> int {
    if m == 0 {
        base
    } else if m == 1 {
        base + 1
    } else if m == 2 {
        base + 2
    } else if m == 3 {
        base
    } else if m == 4 {
        base + 2
    } else {
        base + 3
    }
}

/// Corner `m` (0 to 5) of the two triangles `(a, b, a+1)` and `(a+1, b, b+1)`
/// that cover cell `(i, j)` of a grid whose rows hold `sectors + 1` vertices,
/// where `a` is the cell's vertex in row `i` and `b` the one below it.
pub open spec fn grid_corner(sectors: int, i: int, j: int, m: int) -> int {
    let a = i * (sectors + 1) + j;
    let b = a + sectors + 1;
    if m == 0 {
        a
    } else if m == 1 {
        b
    } else if m == 2 {
        a + 1
    } else if m == 3 {
        a + 1
    } else if m == 4 {
        b
    } else {
        b + 1
    }
}

/// The `k`-th index of a grid triangle list: the cells row by row, six
/// indices per cell.
pub open spec fn grid_index(sectors: int, k: int) -> int {
    let cell = k / 6;
    grid_corner(sectors, cell / sectors, cell % sectors, k % 6)
}

/// The `k`-th index of the skateboard: the deck's quads, then each wheel's
/// grid shifted past the vertices that come before it.
pub open spec fn skateboard_index(k: int) -> int {
    if k < 6 * deck_quads() {
        quad_corner(4 * (k / 6), k % 6)
    } else {
        let w = (k - 6 * deck_quads()) / wheel_indices();
        let m = (k - 6 * deck_quads()) % wheel_indices();
        4 * deck_quads() + w * wheel_vertices() + grid_index(WHEEL_SECTORS as int, m)
    }
}

/// Position `6 * cell + m` of a list of six-index cells is corner `m` of
/// cell `cell`.
proof fn lemma_six_split(cell: int, m: int)
    requires
        0 <= cell,
        0 <= m < 6,
    ensures
        (6 * cell + m) / 6 == cell,
        (6 * cell + m) % 6 == m,
{
    lemma_fundamental_div_mod_converse(6 * cell + m, 6, cell, m);
}

/// The index at corner `m` of cell `(i, j)` of a grid list is that cell's corner.
proof fn lemma_grid_index_at(sectors: int, i: int, j: int, m: int)
    requires
        sectors > 0,
        0 <= i,
        0 <= j < sectors,
        0 <= m < 6,
    ensures
        i * sectors + j >= 0,
        grid_index(sectors, 6 * (i * sectors + j) + m) == grid_corner(sectors, i, j, m),
{
    assert(i * sectors >= 0) by (nonlinear_arith)
        requires
            i >= 0,
            sectors > 0,
    ;
    let cell = i * sectors + j;
    lemma_six_split(cell, m);
    assert(cell == i * sectors + j);
    lemma_fundamental_div_mod_converse(cell, sectors, i, j);
}

/// Every corner of grid cell `(i, j)`, the largest being `a + sectors + 2`,
/// lies in the grid of `stacks + 1` rows of `sectors + 1` vertices.
proof fn lemma_grid_corner_bound(stacks: int, sectors: int, i: int, j: int)
    requires
        0 <= i < stacks,
        0 <= j < sectors,
    ensures
        0 <= i * (sectors + 1) + j,
        i * (sectors + 1) + j + sectors + 2 < (stacks + 1) * (sectors + 1),
{
    assert(0 <= i * (sectors + 1) + j) by (nonlinear_arith)
        requires
            0 <= i,
            0 <= j,
            0 <= sectors,
    ;
    assert(i * (sectors + 1) + j + sectors + 2 < (stacks + 1) * (sectors + 1)) by (nonlinear_arith)
        requires
            0 <= i < stacks,
            0 <= j < sectors,
    ;
}

/// Appends the six indices that cover the quad whose four vertices start
/// at `base`.
pub fn push_quad(indices: &mut Vec<u32>, base: u32)
    requires
        base as int + 3 <= u32::MAX,
    ensures
        final(indices)@ == old(indices)@ + Seq::new(6, |m: int| quad_corner(base as int, m) as u32),
        final(indices)@.len() == old(indices)@.len() + 6,
        forall|k: int|
            0 <= k < old(indices)@.len() ==> #[trigger] final(indices)@[k] == old(indices)@[k],
        final(indices)@[old(indices)@.len() as int] == base,
        final(indices)@[old(indices)@.len() as int + 1] == base + 1,
        final(indices)@[old(indices)@.len() as int + 2] == base + 2,
        final(indices)@[old(indices)@.len() as int + 3] == base,
        final(indices)@[old(indices)@.len() as int + 4] == base + 2,
        final(indices)@[old(indices)@.len() as int + 5] == base + 3,
{
    indices.push(base);
    indices.push(base + 1);
    indices.push(base + 2);
    indices.push(base);
    indices.push(base + 2);
    indices.push(base + 3);
    assert(indices@ =~= old(indices)@ + Seq::new(6, |m: int| quad_corner(base as int, m) as u32));
}

/// Appends the indices of `part`, each shifted by `base`: the indices of a
/// mesh placed after `base` vertices of another.
pub fn push_shifted(indices: &mut Vec<u32>, part: &Vec<u32>, base: u32)
    requires
        forall|k: int| 0 <= k < part@.len() ==> part@[k] + base <= u32::MAX,
    ensures
        final(indices)@ == old(indices)@ + Seq::new(part@.len(), |k: int| (part@[k] + base) as u32),
{
    let mut n: usize = 0;
    while n < part.len()
        invariant
            n <= part@.len(),
            forall|k: int| 0 <= k < part@.len() ==> part@[k] + base <= u32::MAX,
            indices@ == old(indices)@ + Seq::new(n as nat, |k: int| (part@[k] + base) as u32),
        decreases part@.len() - n,
    {
        indices.push(part[n] + base);
        n = n + 1;
        assert(indices@ =~= old(indices)@ + Seq::new(n as nat, |k: int| (part@[k] + base) as u32));
    }
    assert(Seq::new(n as nat, |k: int| (part@[k] + base) as u32) =~= Seq::new(
        part@.len(),
        |k: int| (part@[k] + base) as u32,
    ));
}

/// Appends the six indices of grid cell `(i, j)`.
fn push_grid_cell(indices: &mut Vec<u32>, stacks: u32, sectors: u32, i: u32, j: u32)
    requires
        i < stacks,
        j < sectors,
        (stacks + 1) * (sectors + 1) <= 0x1_0000_0000,
    ensures
        final(indices)@ == old(indices)@ + Seq::new(
            6,
            |m: int| grid_corner(sectors as int, i as int, j as int, m) as u32,
        ),
{
    proof {
        lemma_grid_corner_bound(stacks as int, sectors as int, i as int, j as int);
    }
    let a = i * (sectors + 1) + j;
    let b = a + sectors + 1;
    indices.push(a);
    indices.push(b);
    indices.push(a + 1);
    indices.push(a + 1);
    indices.push(b);
    indices.push(b + 1);
    assert(indices@ =~= old(indices)@ + Seq::new(
        6,
        |m: int| grid_corner(sectors as int, i as int, j as int, m) as u32,
    ));
}

/// The triangle list of a latitude-longitude grid of `stacks + 1` rings of
/// `sectors + 1` vertices, as used by the unit sphere and the unit
/// hemisphere: each cell between two rings is covered by two triangles.
pub fn sphere_grid_topology(stacks: u32, sectors: u32) -> (t: Topology)
    requires
        (stacks + 1) * (sectors + 1) <= 0x1_0000_0000,
    ensures
        t.wf(),
        t.vertex_count == (stacks + 1) * (sectors + 1),
        t.indices@.len() == 6 * stacks * sectors,
        forall|k: int|
            0 <= k < t.indices@.len() ==> #[trigger] t.indices@[k] == grid_index(sectors as int, k),
        forall|k: int|
            0 <= k < t.indices@.len() ==> #[trigger] t.indices@[k] == ({
                let i = (k / 6) / (sectors as int);
                let j = (k / 6) % (sectors as int);
                let a = i * (sectors + 1) + j;
                let b = a + sectors + 1;
                seq![a, b, a + 1, a + 1, b, b + 1][k % 6]
            }),
        stacks > 0 && sectors > 0 ==> forall|v: int|
            0 <= v < t.vertex_count ==> #[trigger] uses_vertex(t.indices@, v),
{
    let vertex_count: u64 = (stacks as u64 + 1) * (sectors as u64 + 1);
    let mut indices: Vec<u32> = Vec::new();
    let mut i: u32 = 0;
    while i < stacks
        invariant
            i <= stacks,
            (stacks + 1) * (sectors + 1) <= 0x1_0000_0000,
            vertex_count == (stacks + 1) * (sectors + 1),
            indices@.len() == 6 * (i * sectors),
            forall|k: int|
                0 <= k < indices@.len() ==> #[trigger] indices@[k] == grid_index(sectors as int, k)
                    && indices@[k] < vertex_count,
        decreases stacks - i,
    {
        let mut j: u32 = 0;
        while j < sectors
            invariant
                i < stacks,
                j <= sectors,
                (stacks + 1) * (sectors + 1) <= 0x1_0000_0000,
                vertex_count == (stacks + 1) * (sectors + 1),
                indices@.len() == 6 * (i * sectors + j),
                forall|k: int|
                    0 <= k < indices@.len() ==> #[trigger] indices@[k] == grid_index(sectors as int, k)
                        && indices@[k] < vertex_count,
            decreases sectors - j,
        {
            let ghost before = indices@;
            proof {
                lemma_grid_corner_bound(stacks as int, sectors as int, i as int, j as int);
            }
            push_grid_cell(&mut indices, stacks, sectors, i, j);
            proof {
                assert forall|k: int| 0 <= k < indices@.len() implies #[trigger] indices@[k]
                    == grid_index(sectors as int, k) && indices@[k] < vertex_count by {
                    if k >= before.len() {
                        let m = k - before.len();
                        lemma_grid_index_at(sectors as int, i as int, j as int, m);
                        assert(k == 6 * (i * sectors + j) + m);
                    }
                }
                assert(indices@.len() == 6 * (i * sectors + (j + 1))) by (nonlinear_arith)
                    requires
                        indices@.len() == 6 * (i * sectors + j) + 6,
                ;
            }
            j = j + 1;
        }
        proof {
            assert(6 * (i * sectors + sectors) == 6 * ((i + 1) * sectors)) by (nonlinear_arith);
        }
        i = i + 1;
    }
    proof {
        assert(6 * (stacks * sectors) == 6 * stacks * sectors) by (nonlinear_arith);
    }
    let t = Topology { vertex_count, indices };
    proof {
        assert forall|tri: int| 0 <= tri < t.indices@.len() / 3 implies #[trigger] proper_triangle(
            t.indices@,
            tri,
        ) by {
            lemma_grid_triangle_proper(stacks as int, sectors as int, t.indices@, tri);
        }
        assert forall|k: int| 0 <= k < t.indices@.len() implies #[trigger] t.indices@[k] == ({
            let i = (k / 6) / (sectors as int);
            let j = (k / 6) % (sectors as int);
            let a = i * (sectors + 1) + j;
            let b = a + sectors + 1;
            seq![a, b, a + 1, a + 1, b, b + 1][k % 6]
        }) by {
            lemma_grid_index_explicit(sectors as int, k);
        }
        if stacks > 0 && sectors > 0 {
            assert forall|v: int| 0 <= v < t.vertex_count implies #[trigger] uses_vertex(
                t.indices@,
                v,
            ) by {
                let k = lemma_grid_covers(stacks as int, sectors as int, v);
                assert(t.indices@[k] == v);
            }
        }
    }
    t
}

/// A triangle of a grid list has three different corners.
proof fn lemma_grid_triangle_proper(stacks: int, sectors: int, s: Seq<u32>, tri: int)
    requires
        stacks >= 0,
        sectors >= 0,
        s.len() == 6 * stacks * sectors,
        0 <= tri < s.len() / 3,
        forall|k: int| 0 <= k < s.len() ==> #[trigger] s[k] == grid_index(sectors, k),
    ensures
        proper_triangle(s, tri),
{
    assert(sectors > 0) by (nonlinear_arith)
        requires
            s.len() == 6 * stacks * sectors,
            0 <= tri < s.len() / 3,
            stacks >= 0,
            sectors >= 0,
    ;
    let cell = tri / 2;
    let h = tri % 2;
    lemma_fundamental_div_mod_converse(tri, 2, cell, h);
    assert(0 <= cell);
    let i = cell / sectors;
    let j = cell % sectors;
    lemma_fundamental_div_mod(cell, sectors);
    lemma_mod_bound(cell, sectors);
    assert(0 <= i) by (nonlinear_arith)
        requires
            cell >= 0,
            sectors > 0,
            i == cell / sectors,
    ;
    lemma_six_split(cell, 3 * h);
    lemma_six_split(cell, 3 * h + 1);
    lemma_six_split(cell, 3 * h + 2);
    assert(3 * tri == 6 * cell + 3 * h);
    assert(3 * tri + 2 < s.len());
    assert(s[3 * tri] == grid_index(sectors, 3 * tri));
    assert(s[3 * tri + 1] == grid_index(sectors, 3 * tri + 1));
    assert(s[3 * tri + 2] == grid_index(sectors, 3 * tri + 2));
}

/// The triangle list of the unit box: six faces of four vertices each, every
/// face covered by two triangles.
pub fn unit_box_topology() -> (t: Topology)
    ensures
        t.wf(),
        t.vertex_count == 24,
        t.indices@.len() == 36,
        forall|k: int|
            0 <= k < t.indices@.len() ==> #[trigger] t.indices@[k] == quad_corner(4 * (k / 6), k % 6),
        forall|k: int|
            0 <= k < t.indices@.len() ==> #[trigger] t.indices@[k] == ({
                let q = k / 6;
                seq![4 * q, 4 * q + 1, 4 * q + 2, 4 * q, 4 * q + 2, 4 * q + 3][k % 6]
            }),
        forall|v: int| 0 <= v < t.vertex_count ==> #[trigger] uses_vertex(t.indices@, v),
{
    let mut indices: Vec<u32> = Vec::new();
    let mut face: u32 = 0;
    while face < 6
        invariant
            face <= 6,
            indices@.len() == 6 * face,
            forall|k: int|
                0 <= k < indices@.len() ==> #[trigger] indices@[k] == quad_corner(4 * (k / 6), k % 6),
        decreases 6 - face,
    {
        let ghost before = indices@;
        push_quad(&mut indices, 4 * face);
        proof {
            assert forall|k: int| 0 <= k < indices@.len() implies #[trigger] indices@[k]
                == quad_corner(4 * (k / 6), k % 6) by {
                if k >= before.len() {
                    lemma_six_split(face as int, k - before.len());
                }
            }
        }
        face = face + 1;
    }
    let t = Topology { vertex_count: 24, indices };
    proof {
        lemma_quads_wf(t.indices@, 6);
        assert forall|k: int| 0 <= k < t.indices@.len() implies #[trigger] t.indices@[k] == ({
            let q = k / 6;
            seq![4 * q, 4 * q + 1, 4 * q + 2, 4 * q, 4 * q + 2, 4 * q + 3][k % 6]
        }) by {
            lemma_quad_corner_explicit(4 * (k / 6), k % 6);
        }
        assert forall|v: int| 0 <= v < t.vertex_count implies #[trigger] uses_vertex(
            t.indices@,
            v,
        ) by {
            let k = lemma_quad_covers(6, v);
            assert(t.indices@[k] == v);
        }
    }
    t
}

/// A list of `quads` quads, each over its own four vertices, is a
/// well-formed triangle list over `4 * quads` vertices.
proof fn lemma_quads_wf(s: Seq<u32>, quads: int)
    requires
        quads >= 0,
        s.len() == 6 * quads,
        forall|k: int| 0 <= k < s.len() ==> #[trigger] s[k] == quad_corner(4 * (k / 6), k % 6),
    ensures
        s.len() % 3 == 0,
        forall|k: int| 0 <= k < s.len() ==> (#[trigger] s[k]) < 4 * quads,
        forall|tri: int| 0 <= tri < s.len() / 3 ==> #[trigger] proper_triangle(s, tri),
{
    assert forall|k: int| 0 <= k < s.len() implies (#[trigger] s[k]) < 4 * quads by {
        let q = k / 6;
        lemma_fundamental_div_mod_converse(k, 6, q, k % 6);
    }
    assert forall|tri: int| 0 <= tri < s.len() / 3 implies #[trigger] proper_triangle(s, tri) by {
        let q = tri / 2;
        let h = tri % 2;
        lemma_fundamental_div_mod_converse(tri, 2, q, h);
        lemma_six_split(q, 3 * h);
        lemma_six_split(q, 3 * h + 1);
        lemma_six_split(q, 3 * h + 2);
        assert(s[3 * tri] == quad_corner(4 * ((3 * tri) / 6), (3 * tri) % 6));
        assert(s[3 * tri + 1] == quad_corner(4 * ((3 * tri + 1) / 6), (3 * tri + 1) % 6));
        assert(s[3 * tri + 2] == quad_corner(4 * ((3 * tri + 2) / 6), (3 * tri + 2) % 6));
    }
    lemma_fundamental_div_mod_converse(s.len() as int, 3, 2 * quads, 0);
}

/// The triangle list of the skateboard: first the deck, whose 19 segments
/// between neighbouring stations have four sides each and whose two ends
/// have a cap each, every quad over its own four vertices; then the four
/// wheels, each a sphere grid placed after the vertices of the deck and of
/// the wheels before it.
pub fn skateboard_topology() -> (t: Topology)
    ensures
        t.wf(),
        t.vertex_count == 4 * deck_quads() + WHEEL_COUNT * wheel_vertices(),
        t.indices@.len() == 6 * deck_quads() + WHEEL_COUNT * wheel_indices(),
        forall|k: int|
            0 <= k < t.indices@.len() ==> #[trigger] t.indices@[k] == skateboard_index(k),
        t.vertex_count == 972,
        t.indices@.len() == 3828,
        forall|k: int|
            0 <= k < t.indices@.len() ==> #[trigger] t.indices@[k] == (if k < 468 {
                let q = k / 6;
                seq![4 * q, 4 * q + 1, 4 * q + 2, 4 * q, 4 * q + 2, 4 * q + 3][k % 6]
            } else {
                let w = (k - 468) / 840;
                let m = (k - 468) % 840;
                let a = 312 + 165 * w + 15 * ((m / 6) / 14) + (m / 6) % 14;
                let b = a + 15;
                seq![a, b, a + 1, a + 1, b, b + 1][m % 6]
            }),
        forall|v: int| 0 <= v < t.vertex_count ==> #[trigger] uses_vertex(t.indices@, v),
{
    let mut indices: Vec<u32> = Vec::new();
    let quads: u32 = 4 * (SKATEBOARD_STATIONS - 1) + 2;
    let mut q: u32 = 0;
    while q < quads
        invariant
            q <= quads,
            quads == deck_quads(),
            indices@.len() == 6 * q,
            forall|k: int|
                0 <= k < indices@.len() ==> #[trigger] indices@[k] == quad_corner(4 * (k / 6), k % 6),
        decreases quads - q,
    {
        let ghost before = indices@;
        push_quad(&mut indices, 4 * q);
        proof {
            assert forall|k: int| 0 <= k < indices@.len() implies #[trigger] indices@[k]
                == quad_corner(4 * (k / 6), k % 6) by {
                if k >= before.len() {
                    lemma_six_split(q as int, k - before.len());
                }
            }
        }
        q = q + 1;
    }
    let ghost deck = indices@;
    proof {
        lemma_skateboard_counts();
        lemma_quads_wf(deck, deck_quads());
    }
    let deck_vertices: u32 = 4 * quads;
    let wheel = sphere_grid_topology(WHEEL_STACKS, WHEEL_SECTORS);
    let wheel_vertex_count: u32 = (WHEEL_STACKS + 1) * (WHEEL_SECTORS + 1);
    let mut w: u32 = 0;
    while w < WHEEL_COUNT
        invariant
            w <= WHEEL_COUNT,
            deck_vertices == 4 * deck_quads(),
            wheel_vertex_count == wheel_vertices(),
            deck_quads() == 78,
            wheel_vertices() == 165,
            wheel_indices() == 840,
            wheel.wf(),
            wheel.vertex_count == wheel_vertices(),
            wheel.indices@.len() == wheel_indices(),
            forall|k: int|
                0 <= k < wheel.indices@.len() ==> #[trigger] wheel.indices@[k] == grid_index(
                    WHEEL_SECTORS as int,
                    k,
                ),
            deck.len() == 6 * deck_quads(),
            forall|k: int| 0 <= k < deck.len() ==> (#[trigger] deck[k]) < 4 * deck_quads(),
            forall|tri: int| 0 <= tri < deck.len() / 3 ==> #[trigger] proper_triangle(deck, tri),
            indices@.len() == 6 * deck_quads() + w * wheel_indices(),
            forall|k: int| 0 <= k < deck.len() ==> #[trigger] indices@[k] == deck[k],
            forall|k: int|
                0 <= k < indices@.len() ==> #[trigger] indices@[k] == skateboard_index(k),
        decreases WHEEL_COUNT - w,
    {
        let ghost before = indices@;
        assert(w * wheel_vertex_count <= 3 * 165) by (nonlinear_arith)
            requires
                w < 4,
                wheel_vertex_count == 165,
        ;
        let base: u32 = deck_vertices + w * wheel_vertex_count;
        push_shifted(&mut indices, &wheel.indices, base);
        proof {
            assert forall|k: int| 0 <= k < indices@.len() implies #[trigger] indices@[k]
                == skateboard_index(k) by {
                if k >= before.len() {
                    let m = k - before.len();
                    lemma_fundamental_div_mod_converse(
                        k - 6 * deck_quads(),
                        wheel_indices(),
                        w as int,
                        m,
                    );
                }
            }
        }
        w = w + 1;
    }
    let t = Topology {
        vertex_count: (deck_vertices + WHEEL_COUNT * wheel_vertex_count) as u64,
        indices,
    };
    proof {
        lemma_skateboard_wf(t.indices@, deck, wheel.indices@);
        lemma_skateboard_explicit(t.indices@);
    }
    t
}

/// The sizes of the skateboard's parts.
proof fn lemma_skateboard_counts()
    ensures
        deck_quads() == 78,
        wheel_vertices() == 165,
        wheel_indices() == 840,
{
    assert(wheel_vertices() == 165) by (nonlinear_arith);
    assert(wheel_indices() == 840) by (nonlinear_arith);
}

/// The skateboard list, the deck's quads followed by the shifted wheel
/// grids, is a well-formed triangle list over the deck's and the wheels'
/// vertices.
proof fn lemma_skateboard_wf(s: Seq<u32>, deck: Seq<u32>, wheel: Seq<u32>)
    requires
        deck.len() == 6 * deck_quads(),
        forall|k: int| 0 <= k < deck.len() ==> (#[trigger] deck[k]) < 4 * deck_quads(),
        forall|tri: int| 0 <= tri < deck.len() / 3 ==> #[trigger] proper_triangle(deck, tri),
        wheel.len() == wheel_indices(),
        forall|k: int| 0 <= k < wheel.len() ==> (#[trigger] wheel[k]) < wheel_vertices(),
        forall|tri: int| 0 <= tri < wheel.len() / 3 ==> #[trigger] proper_triangle(wheel, tri),
        forall|k: int|
            0 <= k < wheel.len() ==> #[trigger] wheel[k] == grid_index(WHEEL_SECTORS as int, k),
        s.len() == 6 * deck_quads() + WHEEL_COUNT * wheel_indices(),
        forall|k: int| 0 <= k < deck.len() ==> #[trigger] s[k] == deck[k],
        forall|k: int| 0 <= k < s.len() ==> #[trigger] s[k] == skateboard_index(k),
    ensures
        s.len() % 3 == 0,
        forall|k: int|
            0 <= k < s.len() ==> (#[trigger] s[k]) < 4 * deck_quads() + WHEEL_COUNT
                * wheel_vertices(),
        forall|tri: int| 0 <= tri < s.len() / 3 ==> #[trigger] proper_triangle(s, tri),
{
    lemma_skateboard_counts();
    let d = 6 * deck_quads();
    assert forall|k: int| 0 <= k < s.len() implies (#[trigger] s[k]) < 4 * deck_quads()
        + WHEEL_COUNT * wheel_vertices() by {
        if k >= d {
            let w = (k - d) / wheel_indices();
            let m = (k - d) % wheel_indices();
            lemma_fundamental_div_mod(k - d, wheel_indices());
            lemma_mod_bound(k - d, wheel_indices());
            assert(0 <= w < WHEEL_COUNT);
            assert(wheel[m] < wheel_vertices());
        }
    }
    assert forall|tri: int| 0 <= tri < s.len() / 3 implies #[trigger] proper_triangle(s, tri) by {
        if 3 * tri < d {
            assert(proper_triangle(deck, tri));
        } else {
            let w = (3 * tri - d) / wheel_indices();
            let r = (3 * tri - d) % wheel_indices();
            lemma_fundamental_div_mod(3 * tri - d, wheel_indices());
            lemma_mod_bound(3 * tri - d, wheel_indices());
            let t2 = r / 3;
            lemma_fundamental_div_mod_converse(r, 3, t2, 0);
            assert(0 <= w < WHEEL_COUNT);
            assert(proper_triangle(wheel, t2));
            let base = 4 * deck_quads() + w * wheel_vertices();
            lemma_fundamental_div_mod_converse(3 * tri - d, wheel_indices(), w, 3 * t2);
            lemma_fundamental_div_mod_converse(3 * tri + 1 - d, wheel_indices(), w, 3 * t2 + 1);
            lemma_fundamental_div_mod_converse(3 * tri + 2 - d, wheel_indices(), w, 3 * t2 + 2);
            assert(s[3 * tri] == wheel[3 * t2] + base);
            assert(s[3 * tri + 1] == wheel[3 * t2 + 1] + base);
            assert(s[3 * tri + 2] == wheel[3 * t2 + 2] + base);
        }
    }
}

/// Whether some index of `s` names vertex `v`.
pub open spec fn uses_vertex(s: Seq<u32>, v: int) -> bool {
    exists|k: int| 0 <= k < s.len() && s[k] == v
}

/// The corners of a quad, written out: `(b, b+1, b+2)` and `(b, b+2, b+3)`.
proof fn lemma_quad_corner_explicit(base: int, m: int)
    requires
        0 <= m < 6,
    ensures
        quad_corner(base, m) == seq![base, base + 1, base + 2, base, base + 2, base + 3][m],
{
    if m == 0 {
    } else if m == 1 {
    } else if m == 2 {
    } else if m == 3 {
    } else if m == 4 {
    } else {
    }
}

/// A grid index, written out: in cell `c = k / 6`, row `i = c / sectors`,
/// column `j = c % sectors`, the triangles `(a, b, a+1)` and `(a+1, b, b+1)`
/// with `a = i * (sectors + 1) + j` and `b = a + sectors + 1`.
proof fn lemma_grid_index_explicit(sectors: int, k: int)
    requires
        0 <= k,
    ensures
        grid_index(sectors, k) == ({
            let i = (k / 6) / sectors;
            let j = (k / 6) % sectors;
            let a = i * (sectors + 1) + j;
            let b = a + sectors + 1;
            seq![a, b, a + 1, a + 1, b, b + 1][k % 6]
        }),
{
    let m = k % 6;
    lemma_mod_bound(k, 6);
    if m == 0 {
    } else if m == 1 {
    } else if m == 2 {
    } else if m == 3 {
    } else if m == 4 {
    } else {
    }
}

/// Every vertex of a list of quads, each over its own four vertices, is
/// named: vertex `v` is corner `v % 4` of quad `v / 4`. Returns the position.
proof fn lemma_quad_covers(quads: int, v: int) -> (k: int)
    requires
        0 <= v < 4 * quads,
    ensures
        0 <= k < 6 * quads,
        quad_corner(4 * (k / 6), k % 6) == v,
{
    let q = v / 4;
    let r = v % 4;
    lemma_fundamental_div_mod(v, 4);
    lemma_mod_bound(v, 4);
    let m = if r == 0 {
        0
    } else if r == 1 {
        1
    } else if r == 2 {
        2
    } else {
        5
    };
    lemma_six_split(q, m);
    6 * q + m
}

/// Every vertex of a grid of at least one cell is named by some index:
/// vertex `(r, c)` is the top-left corner of cell `(r, c)`, or, on the last
/// column or row, a corner of the cell before it. Returns the position.
proof fn lemma_grid_covers(stacks: int, sectors: int, v: int) -> (k: int)
    requires
        stacks > 0,
        sectors > 0,
        0 <= v < (stacks + 1) * (sectors + 1),
    ensures
        0 <= k < 6 * stacks * sectors,
        grid_index(sectors, k) == v,
{
    let r = v / (sectors + 1);
    let c = v % (sectors + 1);
    lemma_fundamental_div_mod(v, sectors + 1);
    lemma_mod_bound(v, sectors + 1);
    assert(0 <= r <= stacks) by (nonlinear_arith)
        requires
            v == (sectors + 1) * r + c,
            0 <= c < sectors + 1,
            0 <= v < (stacks + 1) * (sectors + 1),
            sectors > 0,
    ;
    let (i, j, m) = if r < stacks && c < sectors {
        (r, c, 0int)
    } else if r < stacks {
        (r, sectors - 1, 2int)
    } else if c < sectors {
        (stacks - 1, c, 1int)
    } else {
        (stacks - 1, sectors - 1, 5int)
    };
    lemma_grid_index_at(sectors, i, j, m);
    assert(i * (sectors + 1) + j + sectors + 1 == (i + 1) * (sectors + 1) + j) by (nonlinear_arith);
    assert((sectors + 1) * r == r * (sectors + 1)) by (nonlinear_arith);
    assert(6 * (i * sectors + j) + m < 6 * stacks * sectors) by (nonlinear_arith)
        requires
            0 <= i < stacks,
            0 <= j < sectors,
            0 <= m < 6,
    ;
    6 * (i * sectors + j) + m
}

/// The skateboard list written out: deck quad `q` over vertices `4q` to
/// `4q + 3`, then wheel `w` over vertices `312 + 165 w` onwards, a grid of
/// rows of 15 vertices; and every one of its 972 vertices is named.
proof fn lemma_skateboard_explicit(s: Seq<u32>)
    requires
        s.len() == 6 * deck_quads() + WHEEL_COUNT * wheel_indices(),
        forall|k: int| 0 <= k < s.len() ==> #[trigger] s[k] == skateboard_index(k),
    ensures
        s.len() == 3828,
        forall|k: int|
            0 <= k < s.len() ==> #[trigger] s[k] == (if k < 468 {
                let q = k / 6;
                seq![4 * q, 4 * q + 1, 4 * q + 2, 4 * q, 4 * q + 2, 4 * q + 3][k % 6]
            } else {
                let w = (k - 468) / 840;
                let m = (k - 468) % 840;
                let a = 312 + 165 * w + 15 * ((m / 6) / 14) + (m / 6) % 14;
                let b = a + 15;
                seq![a, b, a + 1, a + 1, b, b + 1][m % 6]
            }),
        forall|v: int| 0 <= v < 972 ==> #[trigger] uses_vertex(s, v),
{
    lemma_skateboard_counts();
    assert forall|k: int| 0 <= k < s.len() implies #[trigger] s[k] == (if k < 468 {
        let q = k / 6;
        seq![4 * q, 4 * q + 1, 4 * q + 2, 4 * q, 4 * q + 2, 4 * q + 3][k % 6]
    } else {
        let w = (k - 468) / 840;
        let m = (k - 468) % 840;
        let a = 312 + 165 * w + 15 * ((m / 6) / 14) + (m / 6) % 14;
        let b = a + 15;
        seq![a, b, a + 1, a + 1, b, b + 1][m % 6]
    }) by {
        if k < 468 {
            lemma_mod_bound(k, 6);
            lemma_quad_corner_explicit(4 * (k / 6), k % 6);
        } else {
            let m = (k - 468) % 840;
            lemma_mod_bound(k - 468, 840);
            lemma_grid_index_explicit(14, m);
        }
    }
    assert forall|v: int| 0 <= v < 972 implies #[trigger] uses_vertex(s, v) by {
        if v < 312 {
            let k = lemma_quad_covers(78, v);
            assert(s[k] == v);
        } else {
            let w = (v - 312) / 165;
            let u = (v - 312) % 165;
            lemma_fundamental_div_mod(v - 312, 165);
            lemma_mod_bound(v - 312, 165);
            let k1 = lemma_grid_covers(10, 14, u);
            let k = 468 + 840 * w + k1;
            lemma_fundamental_div_mod_converse(k - 468, 840, w, k1);
            assert(s[k] == v);
        }
    }
}

} // verus!
