use voxel_world::atlas::{AtlasManager, AtlasRect};
use voxel_world::block::Block;
use voxel_world::chunk::Chunk;
use voxel_world::grid::ChunkGrid;
use voxel_world::identifier::Identifier;
use voxel_world::math::{I16Vec3, IVec3};
use voxel_world::mesh::{build_mesh, rebuild_chunk_mesh, rebuild_chunk_meshes, Face, Quad};

fn rect(n: u32) -> AtlasRect {
    AtlasRect {
        min_x: n * 16,
        min_y: 0,
        max_x: n * 16 + 16,
        max_y: 16,
        atlas_width: 64,
        atlas_height: 16,
    }
}

fn stone() -> Block {
    Block::new(Identifier::new("builtin", "stone"))
}

fn dirt() -> Block {
    Block::new(Identifier::new("builtin", "dirt"))
}

/// An atlas with the error texture at `rect(0)`, dirt at `rect(1)` and
/// stone at `rect(2)`.
fn atlas() -> AtlasManager<u32> {
    let mut atlas = AtlasManager::new();
    atlas.set_error_texture(0);
    atlas.add_data(Identifier::new("builtin", "stone"), 2);
    atlas.add_data(Identifier::new("builtin", "dirt"), 1);
    atlas.rebuild_atlas(&vec![rect(0), rect(1), rect(2)], 9);
    atlas
}

fn grid_with(blocks: &[(IVec3, Block)]) -> ChunkGrid {
    let mut grid = ChunkGrid::new();
    for (position, block) in blocks {
        let chunk = ChunkGrid::to_chunk_coordinates(*position);
        if !grid.contains_key(chunk) {
            grid.insert(Chunk::new(chunk));
        }
        grid.set_block(*position, Some(block.clone())).unwrap();
    }
    grid
}

fn origin() -> IVec3 {
    IVec3::new(0, 0, 0)
}

const ALL_FACES: [Face; 6] = [
    Face::Top,
    Face::Bottom,
    Face::Right,
    Face::Left,
    Face::Back,
    Face::Front,
];

#[test]
fn lone_block_has_six_quads() {
    let grid = grid_with(&[(IVec3::new(5, 6, 7), stone())]);
    let mesh = build_mesh(&grid, origin(), &atlas()).unwrap().unwrap();
    let expected: Vec<Quad> = ALL_FACES
        .iter()
        .map(|face| Quad { x: 5, y: 6, z: 7, face: *face, rect: rect(2) })
        .collect();
    assert_eq!(mesh.quads(), &expected);
    assert_eq!(mesh.positions().len(), 24);
    assert_eq!(mesh.normals().len(), 24);
    assert_eq!(mesh.uv_0().len(), 24);
    // Twelve triangles.
    assert_eq!(mesh.indices().len(), 36);
}

#[test]
fn block_inside_solid_neighbours_has_no_quad() {
    let mut blocks = Vec::new();
    for x in 4..=6 {
        for y in 4..=6 {
            for z in 4..=6 {
                blocks.push((IVec3::new(x, y, z), stone()));
            }
        }
    }
    let grid = grid_with(&blocks);
    let mesh = build_mesh(&grid, origin(), &atlas()).unwrap().unwrap();
    // The outside of a cube of three blocks a side.
    assert_eq!(mesh.quads().len(), 6 * 9);
    assert!(mesh.quads().iter().all(|q| (q.x, q.y, q.z) != (5, 5, 5)));
}

#[test]
fn taking_a_neighbour_away_gives_one_quad_back() {
    let mut blocks = Vec::new();
    for x in 4..=6 {
        for y in 4..=6 {
            for z in 4..=6 {
                blocks.push((IVec3::new(x, y, z), stone()));
            }
        }
    }
    let mut grid = grid_with(&blocks);
    let steps = [
        (IVec3::new(5, 6, 5), Face::Top),
        (IVec3::new(5, 4, 5), Face::Bottom),
        (IVec3::new(6, 5, 5), Face::Right),
        (IVec3::new(4, 5, 5), Face::Left),
        (IVec3::new(5, 5, 6), Face::Back),
        (IVec3::new(5, 5, 4), Face::Front),
    ];
    let mut seen = Vec::new();
    for (neighbour, face) in steps {
        grid.set_block(neighbour, None).unwrap();
        seen.push(face);
        let mesh = build_mesh(&grid, origin(), &atlas()).unwrap().unwrap();
        let middle: Vec<Face> = mesh
            .quads()
            .iter()
            .filter(|q| (q.x, q.y, q.z) == (5, 5, 5))
            .map(|q| q.face)
            .collect();
        assert_eq!(middle, seen);
    }
}

#[test]
fn chunk_of_air_has_no_mesh() {
    let mut grid = ChunkGrid::new();
    grid.insert(Chunk::new(origin()));
    assert!(build_mesh(&grid, origin(), &atlas()).unwrap().is_none());
    let chunk = Chunk::new(origin());
    assert!(rebuild_chunk_mesh(&grid, &atlas(), &chunk).is_none());
}

#[test]
fn chunk_that_is_not_loaded_cannot_be_meshed() {
    let grid = grid_with(&[(IVec3::new(5, 6, 7), stone())]);
    assert!(build_mesh(&grid, IVec3::new(1, 0, 0), &atlas()).is_none());
    assert!(build_mesh(&ChunkGrid::new(), origin(), &atlas()).is_none());
}

#[test]
fn building_twice_gives_the_same_mesh() {
    let grid = grid_with(&[
        (IVec3::new(0, 0, 0), stone()),
        (IVec3::new(1, 0, 0), dirt()),
        (IVec3::new(31, 31, 31), stone()),
        (IVec3::new(32, 31, 31), stone()),
    ]);
    let first = build_mesh(&grid, origin(), &atlas()).unwrap().unwrap();
    let second = build_mesh(&grid, origin(), &atlas()).unwrap().unwrap();
    assert_eq!(first.quads(), second.quads());
    assert_eq!(first.positions(), second.positions());
    assert_eq!(first.normals(), second.normals());
    assert_eq!(first.uv_0(), second.uv_0());
    assert_eq!(first.indices(), second.indices());
    assert_eq!(first.quads().len(), 5 + 5 + 5);
}

#[test]
fn neighbour_in_the_next_chunk_hides_a_side() {
    let lone = grid_with(&[(IVec3::new(31, 5, 5), stone())]);
    assert_eq!(build_mesh(&lone, origin(), &atlas()).unwrap().unwrap().quads().len(), 6);
    let pair = grid_with(&[(IVec3::new(31, 5, 5), stone()), (IVec3::new(32, 5, 5), stone())]);
    let left = build_mesh(&pair, origin(), &atlas()).unwrap().unwrap();
    let faces: Vec<Face> = left.quads().iter().map(|q| q.face).collect();
    assert_eq!(faces, vec![Face::Top, Face::Bottom, Face::Left, Face::Back, Face::Front]);
    let right = build_mesh(&pair, IVec3::new(1, 0, 0), &atlas()).unwrap().unwrap();
    let faces: Vec<Face> = right.quads().iter().map(|q| q.face).collect();
    assert_eq!(faces, vec![Face::Top, Face::Bottom, Face::Right, Face::Back, Face::Front]);
    assert_eq!((right.quads()[0].x, right.quads()[0].y, right.quads()[0].z), (0, 5, 5));
    // A loaded neighbour chunk of air hides nothing.
    let mut with_air = grid_with(&[(IVec3::new(31, 5, 5), stone())]);
    with_air.insert(Chunk::new(IVec3::new(1, 0, 0)));
    assert_eq!(build_mesh(&with_air, origin(), &atlas()).unwrap().unwrap().quads().len(), 6);
}

#[test]
fn neighbours_below_zero_hide_sides_too() {
    let grid = grid_with(&[
        (IVec3::new(0, 0, 0), stone()),
        (IVec3::new(-1, 0, 0), stone()),
        (IVec3::new(0, -1, 0), stone()),
        (IVec3::new(0, 0, -1), stone()),
    ]);
    let mesh = build_mesh(&grid, origin(), &atlas()).unwrap().unwrap();
    let faces: Vec<Face> = mesh.quads().iter().map(|q| q.face).collect();
    assert_eq!(faces, vec![Face::Top, Face::Right, Face::Back]);
}

#[test]
fn mesh_at_the_end_of_the_world() {
    let mut grid = ChunkGrid::new();
    let mut chunk = Chunk::new(IVec3::new(i32::MAX, i32::MAX, i32::MIN));
    chunk.contents.set(I16Vec3::new(31, 31, 0), stone()).unwrap();
    grid.insert(chunk);
    let mesh = build_mesh(&grid, IVec3::new(i32::MAX, i32::MAX, i32::MIN), &atlas())
        .unwrap()
        .unwrap();
    assert_eq!(mesh.quads().len(), 6);
}

#[test]
fn quads_come_in_the_order_of_the_cells() {
    let grid = grid_with(&[
        (IVec3::new(0, 0, 1), stone()),
        (IVec3::new(0, 1, 0), stone()),
        (IVec3::new(1, 0, 0), dirt()),
    ]);
    let mesh = build_mesh(&grid, origin(), &atlas()).unwrap().unwrap();
    let cells: Vec<(i16, i16, i16)> = mesh.quads().iter().map(|q| (q.x, q.y, q.z)).collect();
    let mut expected = Vec::new();
    for cell in [(1, 0, 0), (0, 1, 0), (0, 0, 1)] {
        for _ in 0..6 {
            expected.push(cell);
        }
    }
    assert_eq!(cells, expected);
    assert_eq!(mesh.quads()[0].rect, rect(1));
    assert_eq!(mesh.quads()[6].rect, rect(2));
}

#[test]
fn unknown_block_gets_the_error_texture() {
    let grid = grid_with(&[(IVec3::new(1, 1, 1), Block::new(Identifier::new("mod", "ore")))]);
    let mesh = build_mesh(&grid, origin(), &atlas()).unwrap().unwrap();
    assert!(mesh.quads().iter().all(|q| q.rect == rect(0)));
    assert_eq!(mesh.uv_0()[0], (0, 0));
    assert_eq!(mesh.uv_0()[2], (16, 16));
}

#[test]
fn corners_of_each_side() {
    let grid = grid_with(&[(IVec3::new(5, 6, 7), stone())]);
    let mesh = build_mesh(&grid, origin(), &atlas()).unwrap().unwrap();
    // In half blocks: the middle of the block is (10, 12, 14).
    let expected = vec![
        // top
        (9, 13, 13), (11, 13, 13), (11, 13, 15), (9, 13, 15),
        // bottom
        (9, 11, 13), (11, 11, 13), (11, 11, 15), (9, 11, 15),
        // right
        (11, 11, 13), (11, 11, 15), (11, 13, 15), (11, 13, 13),
        // left
        (9, 11, 13), (9, 11, 15), (9, 13, 15), (9, 13, 13),
        // back
        (9, 11, 15), (9, 13, 15), (11, 13, 15), (11, 11, 15),
        // front
        (9, 11, 13), (9, 13, 13), (11, 13, 13), (11, 11, 13),
    ];
    assert_eq!(mesh.positions(), expected);
    let mut normals = Vec::new();
    for normal in [(0, 1, 0), (0, -1, 0), (1, 0, 0), (-1, 0, 0), (0, 0, 1), (0, 0, -1)] {
        for _ in 0..4 {
            normals.push(normal);
        }
    }
    assert_eq!(mesh.normals(), normals);
    let mut uvs = Vec::new();
    for _ in 0..6 {
        uvs.extend_from_slice(&[(32, 0), (48, 0), (48, 16), (32, 16)]);
    }
    assert_eq!(mesh.uv_0(), uvs);
    let indices = vec![
        0, 3, 1, 1, 3, 2, // top
        4, 5, 7, 5, 6, 7, // bottom
        8, 11, 9, 9, 11, 10, // right
        12, 13, 15, 13, 14, 15, // left
        16, 19, 17, 17, 19, 18, // back
        20, 21, 23, 21, 22, 23, // front
    ];
    assert_eq!(mesh.indices(), indices);
}

fn triangles_look_along_their_normal(face: Face) {
    let grid = grid_with(&[(IVec3::new(5, 6, 7), stone())]);
    let mesh = build_mesh(&grid, origin(), &atlas()).unwrap().unwrap();
    let at = mesh.quads().iter().position(|q| q.face == face).unwrap();
    let positions = mesh.positions();
    let normals = mesh.normals();
    let indices = mesh.indices();
    for triangle in 0..2 {
        let a = positions[indices[6 * at + 3 * triangle] as usize];
        let b = positions[indices[6 * at + 3 * triangle + 1] as usize];
        let c = positions[indices[6 * at + 3 * triangle + 2] as usize];
        let u = (b.0 - a.0, b.1 - a.1, b.2 - a.2);
        let v = (c.0 - a.0, c.1 - a.1, c.2 - a.2);
        let cross = (u.1 * v.2 - u.2 * v.1, u.2 * v.0 - u.0 * v.2, u.0 * v.1 - u.1 * v.0);
        let normal = normals[4 * at];
        assert_eq!(cross, (4 * normal.0, 4 * normal.1, 4 * normal.2));
    }
}

#[test]
fn top_side_looks_up() {
    triangles_look_along_their_normal(Face::Top);
}

#[test]
fn bottom_side_looks_down() {
    triangles_look_along_their_normal(Face::Bottom);
}

#[test]
fn right_side_looks_right() {
    triangles_look_along_their_normal(Face::Right);
}

#[test]
fn left_side_looks_left() {
    triangles_look_along_their_normal(Face::Left);
}

#[test]
fn back_side_looks_back() {
    triangles_look_along_their_normal(Face::Back);
}

#[test]
fn front_side_looks_front() {
    triangles_look_along_their_normal(Face::Front);
}

#[test]
fn meshes_of_all_loaded_chunks() {
    let mut grid = grid_with(&[
        (IVec3::new(0, 0, 0), stone()),
        (IVec3::new(40, 0, 0), dirt()),
        (IVec3::new(41, 0, 0), dirt()),
    ]);
    grid.insert(Chunk::new(IVec3::new(0, 5, 0)));
    let meshes = rebuild_chunk_meshes(&grid, &atlas());
    assert_eq!(meshes.len(), 2);
    assert_eq!(meshes.get(origin()).unwrap().quads().len(), 6);
    assert_eq!(meshes.get(IVec3::new(1, 0, 0)).unwrap().quads().len(), 10);
    assert!(meshes.get(IVec3::new(0, 5, 0)).is_none());
}

#[test]
fn full_chunk_shows_only_its_outside() {
    let mut grid = ChunkGrid::new();
    let mut chunk = Chunk::new(origin());
    chunk.set_area(I16Vec3::new(0, 0, 0), I16Vec3::new(31, 31, 31), &stone());
    grid.insert(chunk);
    let mesh = build_mesh(&grid, origin(), &atlas()).unwrap().unwrap();
    assert_eq!(mesh.quads().len(), 6 * 32 * 32);
    assert_eq!(mesh.indices().len(), 36 * 32 * 32);
    // The last square is a back side, whose last index is its third corner.
    assert_eq!(*mesh.indices().last().unwrap(), 4 * 6 * 32 * 32 - 2);
    assert_eq!(mesh.quads().last().unwrap().face, Face::Back);
}
