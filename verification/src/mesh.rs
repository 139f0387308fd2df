//! The surface of a chunk: one square for each side of a block that borders
//! on air.

use crate::atlas::{AtlasManager, AtlasRect};
use crate::chunk::{
    cell_x, cell_y, cell_z, lemma_position_of_index, BlockGrid, Chunk, CHUNK_BLOCK_COUNT,
};
use crate::coord_map::{among_first, lemma_among_first_ends, lemma_among_first_step, CoordMap};
use crate::grid::{block_at, lemma_chunks_stand_at_their_position, ChunkGrid};
use crate::math::IVec3;
use vstd::prelude::*;

verus! {

/// A side of a block. `Top` looks up the y axis and `Bottom` down, `Right`
/// up the x axis and `Left` down, `Back` up the z axis and `Front` down.
#[derive(Clone, Copy, Debug, PartialEq, Eq, Structural)]
pub enum Face {
    Top,
    Bottom,
    Right,
    Left,
    Back,
    Front,
}

/// One visible side of a block: the position of the block in its chunk, the
/// side, and the place of the block's texture on the atlas.
#[derive(Clone, Copy, Debug, PartialEq, Eq, Structural)]
pub struct Quad {
    pub x: i16,
    pub y: i16,
    pub z: i16,
    pub face: Face,
    pub rect: AtlasRect,
}

/// The step from a block to its neighbour on the side `face`; also the
/// normal of that side.
pub open spec fn face_step(face: Face) -> (int, int, int) {
    match face {
        Face::Top => (0, 1, 0),
        Face::Bottom => (0, -1, 0),
        Face::Right => (1, 0, 0),
        Face::Left => (-1, 0, 0),
        Face::Back => (0, 0, 1),
        Face::Front => (0, 0, -1),
    }
}

/// True where the side `face` of the block at `(x, y, z)` in the chunk at
/// `origin` can be seen: its neighbour on that side is air, or lies in a
/// chunk that is not loaded.
pub open spec fn face_visible(
    chunks: Map<IVec3, Chunk>,
    origin: IVec3,
    x: int,
    y: int,
    z: int,
    face: Face,
) -> bool {
    let step = face_step(face);
    block_at(chunks, origin.x * 32 + x + step.0, origin.y * 32 + y + step.1, origin.z * 32 + z
        + step.2) is None
}

/// The square of one side of a block: one where the side can be seen, none
/// where it cannot.
pub open spec fn face_quads(
    chunks: Map<IVec3, Chunk>,
    origin: IVec3,
    x: i16,
    y: i16,
    z: i16,
    rect: AtlasRect,
    face: Face,
) -> Seq<Quad> {
    if face_visible(chunks, origin, x as int, y as int, z as int, face) {
        seq![Quad { x, y, z, face, rect }]
    } else {
        Seq::empty()
    }
}

/// The squares of a block, side by side: top, bottom, right, left, back,
/// front.
pub open spec fn block_quads(
    chunks: Map<IVec3, Chunk>,
    origin: IVec3,
    x: i16,
    y: i16,
    z: i16,
    rect: AtlasRect,
) -> Seq<Quad> {
    face_quads(chunks, origin, x, y, z, rect, Face::Top) + face_quads(
        chunks,
        origin,
        x,
        y,
        z,
        rect,
        Face::Bottom,
    ) + face_quads(chunks, origin, x, y, z, rect, Face::Right) + face_quads(
        chunks,
        origin,
        x,
        y,
        z,
        rect,
        Face::Left,
    ) + face_quads(chunks, origin, x, y, z, rect, Face::Back) + face_quads(
        chunks,
        origin,
        x,
        y,
        z,
        rect,
        Face::Front,
    )
}

/// The squares of the cell at `index` of `chunk`: those of its block, with
/// the place that the atlas has for the block's identifier or else its
/// place for errors; none for air.
pub open spec fn cell_quads<T>(
    chunks: Map<IVec3, Chunk>,
    chunk: Chunk,
    atlas: AtlasManager<T>,
    index: int,
) -> Seq<Quad> {
    match chunk.contents@[index] {
        Some(block) => block_quads(
            chunks,
            chunk.position,
            cell_x(index) as i16,
            cell_y(index) as i16,
            cell_z(index) as i16,
            atlas.location_or_error(block.identifier@),
        ),
        None => Seq::empty(),
    }
}

/// The squares of the first `n` cells of `chunk`, in the order of the cells.
pub open spec fn quads_before<T>(
    chunks: Map<IVec3, Chunk>,
    chunk: Chunk,
    atlas: AtlasManager<T>,
    n: int,
) -> Seq<Quad>
    decreases n,
{
    if n <= 0 {
        Seq::empty()
    } else {
        quads_before(chunks, chunk, atlas, n - 1) + cell_quads(chunks, chunk, atlas, n - 1)
    }
}

/// The surface of `chunk` among the chunks `chunks`: the squares of all of
/// its cells.
pub open spec fn chunk_quads<T>(chunks: Map<IVec3, Chunk>, chunk: Chunk, atlas: AtlasManager<T>) -> Seq<
    Quad,
> {
    quads_before(chunks, chunk, atlas, 32768)
}

/// The number of sides of the block at `(x, y, z)` that can be seen.
pub open spec fn visible_faces(chunks: Map<IVec3, Chunk>, origin: IVec3, x: int, y: int, z: int) -> int {
    (if face_visible(chunks, origin, x, y, z, Face::Top) {
        1int
    } else {
        0int
    }) + (if face_visible(chunks, origin, x, y, z, Face::Bottom) {
        1int
    } else {
        0int
    }) + (if face_visible(chunks, origin, x, y, z, Face::Right) {
        1int
    } else {
        0int
    }) + (if face_visible(chunks, origin, x, y, z, Face::Left) {
        1int
    } else {
        0int
    }) + (if face_visible(chunks, origin, x, y, z, Face::Back) {
        1int
    } else {
        0int
    }) + (if face_visible(chunks, origin, x, y, z, Face::Front) {
        1int
    } else {
        0int
    })
}

/// A block has one square for each of its sides that can be seen: none
/// where all six neighbours are solid, six where all are air, and one more
/// for each neighbour that is taken away.
pub proof fn lemma_one_quad_for_each_visible_face(
    chunks: Map<IVec3, Chunk>,
    origin: IVec3,
    x: i16,
    y: i16,
    z: i16,
    rect: AtlasRect,
)
    ensures
        block_quads(chunks, origin, x, y, z, rect).len() == visible_faces(
            chunks,
            origin,
            x as int,
            y as int,
            z as int,
        ),
        0 <= visible_faces(chunks, origin, x as int, y as int, z as int) <= 6,
{
}

/// A block whose six neighbours are solid has no square.
pub proof fn lemma_enclosed_block_has_no_quad(
    chunks: Map<IVec3, Chunk>,
    origin: IVec3,
    x: i16,
    y: i16,
    z: i16,
    rect: AtlasRect,
)
    requires
        forall|face: Face| !face_visible(chunks, origin, x as int, y as int, z as int, face),
    ensures
        block_quads(chunks, origin, x, y, z, rect) == Seq::<Quad>::empty(),
{
    assert(!face_visible(chunks, origin, x as int, y as int, z as int, Face::Top));
    assert(!face_visible(chunks, origin, x as int, y as int, z as int, Face::Bottom));
    assert(!face_visible(chunks, origin, x as int, y as int, z as int, Face::Right));
    assert(!face_visible(chunks, origin, x as int, y as int, z as int, Face::Left));
    assert(!face_visible(chunks, origin, x as int, y as int, z as int, Face::Back));
    assert(!face_visible(chunks, origin, x as int, y as int, z as int, Face::Front));
    assert(block_quads(chunks, origin, x, y, z, rect) =~= Seq::<Quad>::empty());
}

/// A block whose six neighbours are air has six squares, one for each side:
/// 24 corners and 12 triangles.
pub proof fn lemma_free_block_has_six_quads(
    chunks: Map<IVec3, Chunk>,
    origin: IVec3,
    x: i16,
    y: i16,
    z: i16,
    rect: AtlasRect,
)
    requires
        forall|face: Face| face_visible(chunks, origin, x as int, y as int, z as int, face),
    ensures
        block_quads(chunks, origin, x, y, z, rect) == seq![
            Quad { x, y, z, face: Face::Top, rect },
            Quad { x, y, z, face: Face::Bottom, rect },
            Quad { x, y, z, face: Face::Right, rect },
            Quad { x, y, z, face: Face::Left, rect },
            Quad { x, y, z, face: Face::Back, rect },
            Quad { x, y, z, face: Face::Front, rect },
        ],
{
    assert(face_visible(chunks, origin, x as int, y as int, z as int, Face::Top));
    assert(face_visible(chunks, origin, x as int, y as int, z as int, Face::Bottom));
    assert(face_visible(chunks, origin, x as int, y as int, z as int, Face::Right));
    assert(face_visible(chunks, origin, x as int, y as int, z as int, Face::Left));
    assert(face_visible(chunks, origin, x as int, y as int, z as int, Face::Back));
    assert(face_visible(chunks, origin, x as int, y as int, z as int, Face::Front));
    assert(block_quads(chunks, origin, x, y, z, rect) =~= seq![
        Quad { x, y, z, face: Face::Top, rect },
        Quad { x, y, z, face: Face::Bottom, rect },
        Quad { x, y, z, face: Face::Right, rect },
        Quad { x, y, z, face: Face::Left, rect },
        Quad { x, y, z, face: Face::Back, rect },
        Quad { x, y, z, face: Face::Front, rect },
    ]);
}

/// Where one neighbour of a block is taken away and its other neighbours
/// stay as they are, the block has exactly one square more.
pub proof fn lemma_neighbour_taken_away(
    before: Map<IVec3, Chunk>,
    after: Map<IVec3, Chunk>,
    origin: IVec3,
    x: i16,
    y: i16,
    z: i16,
    rect: AtlasRect,
    side: Face,
)
    requires
        !face_visible(before, origin, x as int, y as int, z as int, side),
        face_visible(after, origin, x as int, y as int, z as int, side),
        forall|face: Face|
            face != side ==> face_visible(before, origin, x as int, y as int, z as int, face)
                == face_visible(after, origin, x as int, y as int, z as int, face),
    ensures
        block_quads(after, origin, x, y, z, rect).len() == block_quads(
            before,
            origin,
            x,
            y,
            z,
            rect,
        ).len() + 1,
{
    lemma_one_quad_for_each_visible_face(before, origin, x, y, z, rect);
    lemma_one_quad_for_each_visible_face(after, origin, x, y, z, rect);
}

/// Cells of air add nothing to a surface: where all cells but the one at
/// `index` are air among the first `n`, their squares are those of that
/// cell, once it is among them.
proof fn lemma_quads_up_to<T>(
    chunks: Map<IVec3, Chunk>,
    chunk: Chunk,
    atlas: AtlasManager<T>,
    index: int,
    n: int,
)
    requires
        0 <= n,
        forall|i: int| 0 <= i < n && i != index ==> chunk.contents@[i] is None,
    ensures
        quads_before(chunks, chunk, atlas, n) == (if 0 <= index < n {
            cell_quads(chunks, chunk, atlas, index)
        } else {
            Seq::<Quad>::empty()
        }),
    decreases n,
{
    if n > 0 {
        lemma_quads_up_to(chunks, chunk, atlas, index, n - 1);
        if n - 1 != index {
            assert(chunk.contents@[n - 1] is None);
            assert(cell_quads(chunks, chunk, atlas, n - 1) == Seq::<Quad>::empty());
        }
        assert(quads_before(chunks, chunk, atlas, n) =~= (if 0 <= index < n {
            cell_quads(chunks, chunk, atlas, index)
        } else {
            Seq::<Quad>::empty()
        }));
    }
}

/// A chunk of air has no surface.
pub proof fn lemma_air_has_no_surface<T>(
    chunks: Map<IVec3, Chunk>,
    chunk: Chunk,
    atlas: AtlasManager<T>,
)
    requires
        forall|i: int| 0 <= i < 32768 ==> chunk.contents@[i] is None,
    ensures
        chunk_quads(chunks, chunk, atlas) == Seq::<Quad>::empty(),
{
    lemma_quads_up_to(chunks, chunk, atlas, -1, 32768);
}

/// The surface of a chunk that holds a single block is made of the squares
/// of that block.
pub proof fn lemma_surface_of_one_block<T>(
    chunks: Map<IVec3, Chunk>,
    chunk: Chunk,
    atlas: AtlasManager<T>,
    index: int,
)
    requires
        0 <= index < 32768,
        forall|i: int| 0 <= i < 32768 && i != index ==> chunk.contents@[i] is None,
    ensures
        chunk_quads(chunks, chunk, atlas) == cell_quads(chunks, chunk, atlas, index),
{
    lemma_quads_up_to(chunks, chunk, atlas, index, 32768);
}

/// The surface of a chunk: its squares, in the order of the cells, and for
/// each cell in the order top, bottom, right, left, back, front.
#[derive(Debug)]
pub struct ChunkMesh {
    quads: Vec<Quad>,
}

impl View for ChunkMesh {
    type V = Seq<Quad>;

    closed spec fn view(&self) -> Seq<Quad> {
        self.quads@
    }
}

/// The corner `k` of the side `face` of a block, from the middle of the
/// block, in half blocks. The corners go round the side, 0 to 3.
pub open spec fn corner_sign(face: Face, k: int) -> (int, int, int) {
    match face {
        Face::Top => if k == 0 {
            (-1, 1, -1)
        } else if k == 1 {
            (1, 1, -1)
        } else if k == 2 {
            (1, 1, 1)
        } else {
            (-1, 1, 1)
        },
        Face::Bottom => if k == 0 {
            (-1, -1, -1)
        } else if k == 1 {
            (1, -1, -1)
        } else if k == 2 {
            (1, -1, 1)
        } else {
            (-1, -1, 1)
        },
        Face::Right => if k == 0 {
            (1, -1, -1)
        } else if k == 1 {
            (1, -1, 1)
        } else if k == 2 {
            (1, 1, 1)
        } else {
            (1, 1, -1)
        },
        Face::Left => if k == 0 {
            (-1, -1, -1)
        } else if k == 1 {
            (-1, -1, 1)
        } else if k == 2 {
            (-1, 1, 1)
        } else {
            (-1, 1, -1)
        },
        Face::Back => if k == 0 {
            (-1, -1, 1)
        } else if k == 1 {
            (-1, 1, 1)
        } else if k == 2 {
            (1, 1, 1)
        } else {
            (1, -1, 1)
        },
        Face::Front => if k == 0 {
            (-1, -1, -1)
        } else if k == 1 {
            (-1, 1, -1)
        } else if k == 2 {
            (1, 1, -1)
        } else {
            (1, -1, -1)
        },
    }
}

/// The corner that stands at place `m` of the six indices of a square: two
/// triangles, each of three corners. Sides that look up an axis and sides
/// that look down one go round their corners in opposite ways.
pub open spec fn index_pattern(face: Face, m: int) -> int {
    match face {
        Face::Top | Face::Right | Face::Back => if m == 0 {
            0
        } else if m == 1 {
            3
        } else if m == 2 {
            1
        } else if m == 3 {
            1
        } else if m == 4 {
            3
        } else {
            2
        },
        Face::Bottom | Face::Left | Face::Front => if m == 0 {
            0
        } else if m == 1 {
            1
        } else if m == 2 {
            3
        } else if m == 3 {
            1
        } else if m == 4 {
            2
        } else {
            3
        },
    }
}

/// The position of corner `k` of a square, in half blocks from the corner of
/// the chunk: the middle of the block at `(x, y, z)` is `(2x, 2y, 2z)`.
pub open spec fn vertex_position(quad: Quad, k: int) -> (i32, i32, i32) {
    let sign = corner_sign(quad.face, k);
    ((2 * quad.x + sign.0) as i32, (2 * quad.y + sign.1) as i32, (2 * quad.z + sign.2) as i32)
}

/// The normal of a square.
pub open spec fn vertex_normal(quad: Quad) -> (i32, i32, i32) {
    let step = face_step(quad.face);
    (step.0 as i32, step.1 as i32, step.2 as i32)
}

/// The place on the atlas of corner `k` of a square, in pixels.
pub open spec fn vertex_uv(quad: Quad, k: int) -> (u32, u32) {
    if k == 0 {
        (quad.rect.min_x, quad.rect.min_y)
    } else if k == 1 {
        (quad.rect.max_x, quad.rect.min_y)
    } else if k == 2 {
        (quad.rect.max_x, quad.rect.max_y)
    } else {
        (quad.rect.min_x, quad.rect.max_y)
    }
}

/// The cross product.
pub open spec fn cross(a: (int, int, int), b: (int, int, int)) -> (int, int, int) {
    (a.1 * b.2 - a.2 * b.1, a.2 * b.0 - a.0 * b.2, a.0 * b.1 - a.1 * b.0)
}

/// The cross product of two vectors whose components are known.
proof fn lemma_cross_of(
    u0: int,
    u1: int,
    u2: int,
    v0: int,
    v1: int,
    v2: int,
    a0: int,
    a1: int,
    a2: int,
    b0: int,
    b1: int,
    b2: int,
)
    by (nonlinear_arith)
    requires
        u0 == a0,
        u1 == a1,
        u2 == a2,
        v0 == b0,
        v1 == b1,
        v2 == b2,
    ensures
        u1 * v2 - u2 * v1 == a1 * b2 - a2 * b1,
        u2 * v0 - u0 * v2 == a2 * b0 - a0 * b2,
        u0 * v1 - u1 * v0 == a0 * b1 - a1 * b0,
{
}

/// Both triangles of a square go round their corners so that they look the
/// way of the square's normal: opposite sides are wound in opposite ways.
pub proof fn lemma_triangles_look_outward(face: Face, triangle: int)
    requires
        triangle == 0 || triangle == 1,
    ensures
        ({
            let a = corner_sign(face, index_pattern(face, 3 * triangle));
            let b = corner_sign(face, index_pattern(face, 3 * triangle + 1));
            let c = corner_sign(face, index_pattern(face, 3 * triangle + 2));
            let step = face_step(face);
            cross((b.0 - a.0, b.1 - a.1, b.2 - a.2), (c.0 - a.0, c.1 - a.1, c.2 - a.2)) == (
                4 * step.0,
                4 * step.1,
                4 * step.2,
            )
        }),
{
    let a = corner_sign(face, index_pattern(face, 3 * triangle));
    let b = corner_sign(face, index_pattern(face, 3 * triangle + 1));
    let c = corner_sign(face, index_pattern(face, 3 * triangle + 2));
    let u = (b.0 - a.0, b.1 - a.1, b.2 - a.2);
    let v = (c.0 - a.0, c.1 - a.1, c.2 - a.2);
    assert(-2 <= u.0 <= 2 && -2 <= u.1 <= 2 && -2 <= u.2 <= 2);
    assert(-2 <= v.0 <= 2 && -2 <= v.1 <= 2 && -2 <= v.2 <= 2);
    if triangle == 0 {
        match face {
            Face::Top => {
                lemma_cross_of(u.0, u.1, u.2, v.0, v.1, v.2, 0, 0, 2, 2, 0, 0);
            },
            Face::Bottom => {
                lemma_cross_of(u.0, u.1, u.2, v.0, v.1, v.2, 2, 0, 0, 0, 0, 2);
            },
            Face::Right => {
                lemma_cross_of(u.0, u.1, u.2, v.0, v.1, v.2, 0, 2, 0, 0, 0, 2);
            },
            Face::Left => {
                lemma_cross_of(u.0, u.1, u.2, v.0, v.1, v.2, 0, 0, 2, 0, 2, 0);
            },
            Face::Back => {
                lemma_cross_of(u.0, u.1, u.2, v.0, v.1, v.2, 2, 0, 0, 0, 2, 0);
            },
            Face::Front => {
                lemma_cross_of(u.0, u.1, u.2, v.0, v.1, v.2, 0, 2, 0, 2, 0, 0);
            },
        }
    } else {
        match face {
            Face::Top => {
                lemma_cross_of(u.0, u.1, u.2, v.0, v.1, v.2, -2, 0, 2, 0, 0, 2);
            },
            Face::Bottom => {
                lemma_cross_of(u.0, u.1, u.2, v.0, v.1, v.2, 0, 0, 2, -2, 0, 2);
            },
            Face::Right => {
                lemma_cross_of(u.0, u.1, u.2, v.0, v.1, v.2, 0, 2, -2, 0, 2, 0);
            },
            Face::Left => {
                lemma_cross_of(u.0, u.1, u.2, v.0, v.1, v.2, 0, 2, 0, 0, 2, -2);
            },
            Face::Back => {
                lemma_cross_of(u.0, u.1, u.2, v.0, v.1, v.2, 2, -2, 0, 2, 0, 0);
            },
            Face::Front => {
                lemma_cross_of(u.0, u.1, u.2, v.0, v.1, v.2, 2, 0, 0, 2, -2, 0);
            },
        }
    }
}

/// The corner `k` of the side `face`, in half blocks from the middle of the
/// block.
fn corner(face: Face, k: u8) -> (sign: (i32, i32, i32))
    requires
        k < 4,
    ensures
        sign.0 == corner_sign(face, k as int).0,
        sign.1 == corner_sign(face, k as int).1,
        sign.2 == corner_sign(face, k as int).2,
        -1 <= sign.0 <= 1,
        -1 <= sign.1 <= 1,
        -1 <= sign.2 <= 1,
{
    match face {
        Face::Top => if k == 0 {
            (-1, 1, -1)
        } else if k == 1 {
            (1, 1, -1)
        } else if k == 2 {
            (1, 1, 1)
        } else {
            (-1, 1, 1)
        },
        Face::Bottom => if k == 0 {
            (-1, -1, -1)
        } else if k == 1 {
            (1, -1, -1)
        } else if k == 2 {
            (1, -1, 1)
        } else {
            (-1, -1, 1)
        },
        Face::Right => if k == 0 {
            (1, -1, -1)
        } else if k == 1 {
            (1, -1, 1)
        } else if k == 2 {
            (1, 1, 1)
        } else {
            (1, 1, -1)
        },
        Face::Left => if k == 0 {
            (-1, -1, -1)
        } else if k == 1 {
            (-1, -1, 1)
        } else if k == 2 {
            (-1, 1, 1)
        } else {
            (-1, 1, -1)
        },
        Face::Back => if k == 0 {
            (-1, -1, 1)
        } else if k == 1 {
            (-1, 1, 1)
        } else if k == 2 {
            (1, 1, 1)
        } else {
            (1, -1, 1)
        },
        Face::Front => if k == 0 {
            (-1, -1, -1)
        } else if k == 1 {
            (-1, 1, -1)
        } else if k == 2 {
            (1, 1, -1)
        } else {
            (1, -1, -1)
        },
    }
}

/// The corner at place `m` of the six indices of a square.
fn pattern(face: Face, m: u8) -> (k: u32)
    requires
        m < 6,
    ensures
        k == index_pattern(face, m as int),
        k < 4,
{
    match face {
        Face::Top | Face::Right | Face::Back => if m == 0 {
            0
        } else if m == 1 {
            3
        } else if m == 2 {
            1
        } else if m == 3 {
            1
        } else if m == 4 {
            3
        } else {
            2
        },
        Face::Bottom | Face::Left | Face::Front => if m == 0 {
            0
        } else if m == 1 {
            1
        } else if m == 2 {
            3
        } else if m == 3 {
            1
        } else if m == 4 {
            2
        } else {
            3
        },
    }
}

impl ChunkMesh {
    /// A chunk has 32768 cells of six sides each, and a mesh no more
    /// squares than that.
    #[verifier::type_invariant]
    pub open spec fn well_formed(self) -> bool {
        self@.len() <= 196608
    }

    /// The squares of the mesh.
    pub fn quads(&self) -> (quads: &Vec<Quad>)
        ensures
            quads@ == self@,
            quads@.len() <= 196608,
    {
        proof {
            use_type_invariant(self);
        }
        &self.quads
    }

    /// The corners of all squares, four for each square: their positions in
    /// half blocks from the corner of the chunk.
    pub fn positions(&self) -> (positions: Vec<(i32, i32, i32)>)
        ensures
            positions@.len() == 4 * self@.len(),
            forall|j: int|
                0 <= j < positions@.len() ==> #[trigger] positions@[j] == vertex_position(
                    self@[j / 4],
                    j % 4,
                ),
    {
        proof {
            use_type_invariant(self);
        }
        let mut positions: Vec<(i32, i32, i32)> = Vec::new();
        let mut i: usize = 0;
        while i < self.quads.len()
            invariant
                i <= self.quads@.len(),
                positions@.len() == 4 * i,
                forall|j: int|
                    0 <= j < positions@.len() ==> #[trigger] positions@[j] == vertex_position(
                        self.quads@[j / 4],
                        j % 4,
                    ),
            decreases self.quads@.len() - i,
        {
            let quad = self.quads[i];
            let mut k: u8 = 0;
            while k < 4
                invariant
                    k <= 4,
                    i < self.quads@.len(),
                    quad == self.quads@[i as int],
                    positions@.len() == 4 * i + k,
                    forall|j: int|
                        0 <= j < positions@.len() ==> #[trigger] positions@[j] == vertex_position(
                            self.quads@[j / 4],
                            j % 4,
                        ),
                decreases 4 - k,
            {
                let sign = corner(quad.face, k);
                positions.push(
                    (
                        2 * (quad.x as i32) + sign.0,
                        2 * (quad.y as i32) + sign.1,
                        2 * (quad.z as i32) + sign.2,
                    ),
                );
                k += 1;
            }
            i += 1;
        }
        positions
    }

    /// The normal of each corner of each square: that of its square.
    pub fn normals(&self) -> (normals: Vec<(i32, i32, i32)>)
        ensures
            normals@.len() == 4 * self@.len(),
            forall|j: int|
                0 <= j < normals@.len() ==> #[trigger] normals@[j] == vertex_normal(self@[j / 4]),
    {
        proof {
            use_type_invariant(self);
        }
        let mut normals: Vec<(i32, i32, i32)> = Vec::new();
        let mut i: usize = 0;
        while i < self.quads.len()
            invariant
                i <= self.quads@.len(),
                normals@.len() == 4 * i,
                forall|j: int|
                    0 <= j < normals@.len() ==> #[trigger] normals@[j] == vertex_normal(
                        self.quads@[j / 4],
                    ),
            decreases self.quads@.len() - i,
        {
            let normal: (i32, i32, i32) = match self.quads[i].face {
                Face::Top => (0, 1, 0),
                Face::Bottom => (0, -1, 0),
                Face::Right => (1, 0, 0),
                Face::Left => (-1, 0, 0),
                Face::Back => (0, 0, 1),
                Face::Front => (0, 0, -1),
            };
            normals.push(normal);
            normals.push(normal);
            normals.push(normal);
            normals.push(normal);
            i += 1;
        }
        normals
    }

    /// The place on the atlas of each corner of each square, in pixels.
    pub fn uv_0(&self) -> (uvs: Vec<(u32, u32)>)
        ensures
            uvs@.len() == 4 * self@.len(),
            forall|j: int|
                0 <= j < uvs@.len() ==> #[trigger] uvs@[j] == vertex_uv(self@[j / 4], j % 4),
    {
        proof {
            use_type_invariant(self);
        }
        let mut uvs: Vec<(u32, u32)> = Vec::new();
        let mut i: usize = 0;
        while i < self.quads.len()
            invariant
                i <= self.quads@.len(),
                uvs@.len() == 4 * i,
                forall|j: int|
                    0 <= j < uvs@.len() ==> #[trigger] uvs@[j] == vertex_uv(
                        self.quads@[j / 4],
                        j % 4,
                    ),
            decreases self.quads@.len() - i,
        {
            let rect = self.quads[i].rect;
            uvs.push((rect.min_x, rect.min_y));
            uvs.push((rect.max_x, rect.min_y));
            uvs.push((rect.max_x, rect.max_y));
            uvs.push((rect.min_x, rect.max_y));
            i += 1;
        }
        uvs
    }

    /// The triangles: six indices into the corners for each square.
    pub fn indices(&self) -> (indices: Vec<u32>)
        ensures
            indices@.len() == 6 * self@.len(),
            forall|j: int|
                0 <= j < indices@.len() ==> #[trigger] indices@[j] == 4 * (j / 6) + index_pattern(
                    self@[j / 6].face,
                    j % 6,
                ),
    {
        proof {
            use_type_invariant(self);
        }
        let mut indices: Vec<u32> = Vec::new();
        let mut indices_offset: u32 = 0;
        let mut i: usize = 0;
        while i < self.quads.len()
            invariant
                i <= self.quads@.len(),
                self.quads@.len() <= 196608,
                indices_offset == 4 * i,
                indices@.len() == 6 * i,
                forall|j: int|
                    0 <= j < indices@.len() ==> #[trigger] indices@[j] == 4 * (j / 6)
                        + index_pattern(self.quads@[j / 6].face, j % 6),
            decreases self.quads@.len() - i,
        {
            let face = self.quads[i].face;
            let mut m: u8 = 0;
            while m < 6
                invariant
                    m <= 6,
                    i < self.quads@.len(),
                    self.quads@.len() <= 196608,
                    face == self.quads@[i as int].face,
                    indices_offset == 4 * i,
                    indices@.len() == 6 * i + m,
                    forall|j: int|
                        0 <= j < indices@.len() ==> #[trigger] indices@[j] == 4 * (j / 6)
                            + index_pattern(self.quads@[j / 6].face, j % 6),
                decreases 6 - m,
            {
                indices.push(indices_offset + pattern(face, m));
                m += 1;
            }
            indices_offset += 4;
            i += 1;
        }
        indices
    }
}

/// One side of a block: adds its square to `quads` where it can be seen.
fn push_face(
    quads: &mut Vec<Quad>,
    chunk_grid: &ChunkGrid,
    origin: IVec3,
    x: i16,
    y: i16,
    z: i16,
    rect: AtlasRect,
    face: Face,
)
    requires
        0 <= x < 32,
        0 <= y < 32,
        0 <= z < 32,
    ensures
        final(quads)@ == old(quads)@ + face_quads(chunk_grid@, origin, x, y, z, rect, face),
{
    let (dx, dy, dz): (i64, i64, i64) = match face {
        Face::Top => (0, 1, 0),
        Face::Bottom => (0, -1, 0),
        Face::Right => (1, 0, 0),
        Face::Left => (-1, 0, 0),
        Face::Back => (0, 0, 1),
        Face::Front => (0, 0, -1),
    };
    let wx: i64 = (origin.x as i64) * 32 + (x as i64) + dx;
    let wy: i64 = (origin.y as i64) * 32 + (y as i64) + dy;
    let wz: i64 = (origin.z as i64) * 32 + (z as i64) + dz;
    if chunk_grid.get_block_wide(wx, wy, wz).is_none() {
        quads.push(Quad { x, y, z, face, rect });
        assert(quads@ =~= old(quads)@ + face_quads(chunk_grid@, origin, x, y, z, rect, face));
    } else {
        assert(quads@ =~= old(quads)@ + face_quads(chunk_grid@, origin, x, y, z, rect, face));
    }
}

/// One block: adds the squares of its sides that can be seen to `quads`.
fn push_block(
    quads: &mut Vec<Quad>,
    chunk_grid: &ChunkGrid,
    origin: IVec3,
    x: i16,
    y: i16,
    z: i16,
    rect: AtlasRect,
)
    requires
        0 <= x < 32,
        0 <= y < 32,
        0 <= z < 32,
    ensures
        final(quads)@ == old(quads)@ + block_quads(chunk_grid@, origin, x, y, z, rect),
        final(quads)@.len() <= old(quads)@.len() + 6,
{
    push_face(quads, chunk_grid, origin, x, y, z, rect, Face::Top);
    push_face(quads, chunk_grid, origin, x, y, z, rect, Face::Bottom);
    push_face(quads, chunk_grid, origin, x, y, z, rect, Face::Right);
    push_face(quads, chunk_grid, origin, x, y, z, rect, Face::Left);
    push_face(quads, chunk_grid, origin, x, y, z, rect, Face::Back);
    push_face(quads, chunk_grid, origin, x, y, z, rect, Face::Front);
    proof {
        lemma_one_quad_for_each_visible_face(chunk_grid@, origin, x, y, z, rect);
        assert(quads@ =~= old(quads)@ + block_quads(chunk_grid@, origin, x, y, z, rect));
    }
}

/// The surface of the chunk at `position` with the cells `contents`, among
/// the chunks of `chunk_grid`.
fn surface_of<T>(
    chunk_grid: &ChunkGrid,
    atlas: &AtlasManager<T>,
    position: IVec3,
    contents: &BlockGrid,
) -> (mesh: Option<ChunkMesh>)
    requires
        atlas.error_atlas_location() is Some,
    ensures
        match mesh {
            Some(m) => m@ == chunk_quads(
                chunk_grid@,
                (Chunk { position, contents: *contents }),
                *atlas,
            ) && m@.len() > 0,
            None => chunk_quads(
                chunk_grid@,
                (Chunk { position, contents: *contents }),
                *atlas,
            ).len() == 0,
        },
{
    proof {
        use_type_invariant(contents);
    }
    let ghost chunk = Chunk { position, contents: *contents };
    let mut quads: Vec<Quad> = Vec::new();
    let mut index: usize = 0;
    while index < CHUNK_BLOCK_COUNT
        invariant
            index <= 32768,
            chunk == (Chunk { position, contents: *contents }),
            contents@.len() == 32768,
            atlas.error_atlas_location() is Some,
            quads@ == quads_before(chunk_grid@, chunk, *atlas, index as int),
            quads@.len() <= 6 * index,
        decreases 32768 - index,
    {
        let ghost before = quads@;
        proof {
            lemma_position_of_index(index as int);
        }
        let cell = BlockGrid::to_block_coordinates_from_index(index).unwrap();
        match contents.get(cell) {
            Some(block) => {
                let rect = atlas.atlas_location_or_error(&block.identifier);
                push_block(&mut quads, chunk_grid, position, cell.x, cell.y, cell.z, rect);
                assert(contents@[index as int] == Some(*block));
            },
            None => {
                assert(contents@[index as int] is None);
                assert(quads@ =~= before + Seq::<Quad>::empty());
            },
        }
        assert(quads@ == before + cell_quads(chunk_grid@, chunk, *atlas, index as int));
        index += 1;
    }
    if quads.len() == 0 {
        return None;
    }
    Some(ChunkMesh { quads })
}

/// The surface of `chunk` among the chunks of `chunk_grid`, or `None` where
/// no side of any of its blocks can be seen. The neighbours of a block are
/// looked up on the grid, those in `chunk`'s own place too.
pub fn rebuild_chunk_mesh<T>(
    chunk_grid: &ChunkGrid,
    atlas: &AtlasManager<T>,
    chunk: &Chunk,
) -> (mesh: Option<ChunkMesh>)
    requires
        atlas.error_atlas_location() is Some,
    ensures
        match mesh {
            Some(m) => m@ == chunk_quads(chunk_grid@, *chunk, *atlas) && m@.len() > 0,
            None => chunk_quads(chunk_grid@, *chunk, *atlas).len() == 0,
        },
{
    surface_of(chunk_grid, atlas, chunk.position, &chunk.contents)
}

/// The surface of the chunk at `position`. The outer result is `None` where
/// no chunk is loaded there; the inner one is `None` where the chunk is
/// there and no side of any of its blocks can be seen.
pub fn build_mesh<T>(chunk_grid: &ChunkGrid, position: IVec3, atlas: &AtlasManager<T>) -> (mesh:
    Option<Option<ChunkMesh>>)
    requires
        atlas.error_atlas_location() is Some,
    ensures
        !chunk_grid@.contains_key(position) ==> mesh is None,
        chunk_grid@.contains_key(position) ==> match mesh {
            Some(Some(m)) => m@ == chunk_quads(chunk_grid@, chunk_grid@[position], *atlas) && m@.len()
                > 0,
            Some(None) => chunk_quads(chunk_grid@, chunk_grid@[position], *atlas).len() == 0,
            None => false,
        },
{
    match chunk_grid.get(position) {
        Some(contents) => {
            proof {
                lemma_chunks_stand_at_their_position(*chunk_grid, position);
            }
            Some(surface_of(chunk_grid, atlas, position, contents))
        },
        None => None,
    }
}

/// The surface of every loaded chunk that has one, by the position of the
/// chunk.
pub fn rebuild_chunk_meshes<T>(chunk_grid: &ChunkGrid, atlas: &AtlasManager<T>) -> (meshes: CoordMap<
    ChunkMesh,
>)
    requires
        atlas.error_atlas_location() is Some,
    ensures
        forall|p: IVec3|
            meshes@.contains_key(p) <==> chunk_grid@.contains_key(p) && chunk_quads(
                chunk_grid@,
                chunk_grid@[p],
                *atlas,
            ).len() > 0,
        forall|p: IVec3|
            meshes@.contains_key(p) ==> #[trigger] meshes@[p]@ == chunk_quads(
                chunk_grid@,
                chunk_grid@[p],
                *atlas,
            ),
{
    let mut meshes: CoordMap<ChunkMesh> = CoordMap::new();
    let positions = chunk_grid.positions();
    let mut i: usize = 0;
    while i < positions.len()
        invariant
            i <= positions@.len(),
            atlas.error_atlas_location() is Some,
            positions@.no_duplicates(),
            forall|p: IVec3| positions@.contains(p) <==> chunk_grid@.contains_key(p),
            forall|p: IVec3|
                meshes@.contains_key(p) <==> among_first(positions@, i as int, p) && chunk_quads(
                    chunk_grid@,
                    chunk_grid@[p],
                    *atlas,
                ).len() > 0,
            forall|p: IVec3|
                meshes@.contains_key(p) ==> #[trigger] meshes@[p]@ == chunk_quads(
                    chunk_grid@,
                    chunk_grid@[p],
                    *atlas,
                ),
        decreases positions@.len() - i,
    {
        let position = positions[i];
        let ghost before = meshes@;
        assert(positions@.contains(position));
        match build_mesh(chunk_grid, position, atlas) {
            Some(Some(mesh)) => {
                let _ = meshes.insert(position, mesh);
            },
            _ => {},
        }
        proof {
            assert forall|p: IVec3|
                meshes@.contains_key(p) <==> among_first(positions@, i + 1, p) && chunk_quads(
                    chunk_grid@,
                    chunk_grid@[p],
                    *atlas,
                ).len() > 0 by {
                lemma_among_first_step(positions@, i as int, p);
            }
        }
        i += 1;
    }
    proof {
        assert forall|p: IVec3|
            meshes@.contains_key(p) <==> chunk_grid@.contains_key(p) && chunk_quads(
                chunk_grid@,
                chunk_grid@[p],
                *atlas,
            ).len() > 0 by {
            lemma_among_first_ends(positions@, p);
        }
    }
    meshes
}

} // verus!
