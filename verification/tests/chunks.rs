use voxel_world::block::Block;
use voxel_world::chunk::{BlockGrid, Chunk, HeightMap, SerializableChunkContents, CHUNK_BLOCK_COUNT};
use voxel_world::grid::ChunkGrid;
use voxel_world::identifier::Identifier;
use voxel_world::math::{I16Vec3, IVec3};

fn stone() -> Block {
    Block::new(Identifier::new("builtin", "stone"))
}

fn dirt() -> Block {
    Block::new(Identifier::new("builtin", "dirt"))
}

fn flat(height: i32) -> HeightMap {
    HeightMap::new(vec![height; 1024]).unwrap()
}

fn count_solid(chunk: &Chunk) -> usize {
    let mut count = 0;
    for index in 0..CHUNK_BLOCK_COUNT {
        let position = BlockGrid::to_block_coordinates_from_index(index).unwrap();
        if chunk.contents.get(position).is_some() {
            count += 1;
        }
    }
    count
}

#[test]
fn new_grid_is_air() {
    let grid = BlockGrid::new();
    for index in 0..CHUNK_BLOCK_COUNT {
        let position = BlockGrid::to_block_coordinates_from_index(index).unwrap();
        assert_eq!(grid.get(position), None);
    }
    assert_eq!(grid.get(I16Vec3::new(32, 0, 0)), None);
    assert_eq!(grid.get(I16Vec3::new(0, -1, 0)), None);
}

#[test]
fn set_and_get_a_block() {
    let mut grid = BlockGrid::new();
    assert_eq!(grid.set(I16Vec3::new(1, 2, 3), stone()), Some(()));
    assert_eq!(grid.get(I16Vec3::new(1, 2, 3)), Some(&stone()));
    assert_eq!(grid.get(I16Vec3::new(3, 2, 1)), None);
    assert_eq!(grid.set(I16Vec3::new(32, 2, 3), stone()), None);
    assert_eq!(grid.set(I16Vec3::new(1, -1, 3), stone()), None);
    assert_eq!(grid.set_cell(I16Vec3::new(1, 2, 3), None), Some(()));
    assert_eq!(grid.get(I16Vec3::new(1, 2, 3)), None);
    assert_eq!(grid.set_cell(I16Vec3::new(1, 2, 32), None), None);
}

#[test]
fn change_a_block_in_place() {
    let mut grid = BlockGrid::new();
    grid.set(I16Vec3::new(1, 2, 3), stone()).unwrap();
    *grid.get_mut(I16Vec3::new(1, 2, 3)).unwrap() = dirt();
    assert_eq!(grid.get(I16Vec3::new(1, 2, 3)), Some(&dirt()));
    assert!(grid.get_mut(I16Vec3::new(0, 0, 0)).is_none());
    assert!(grid.get_mut(I16Vec3::new(0, 0, 40)).is_none());
}

#[test]
fn fill_a_box_of_a_grid() {
    let mut grid = BlockGrid::new();
    let start = I16Vec3::new(1, 2, 3);
    let end = I16Vec3::new(4, 2, 5);
    assert_eq!(grid.set_area(start, end, &stone()), Some(()));
    let mut count = 0;
    for index in 0..CHUNK_BLOCK_COUNT {
        let p = BlockGrid::to_block_coordinates_from_index(index).unwrap();
        let inside = (1..=4).contains(&p.x) && p.y == 2 && (3..=5).contains(&p.z);
        assert_eq!(grid.get(p).is_some(), inside);
        if inside {
            count += 1;
        }
    }
    assert_eq!(count, 4 * 1 * 3);
}

#[test]
fn fill_refuses_ends_outside_the_chunk() {
    let mut grid = BlockGrid::new();
    assert_eq!(
        grid.set_area(I16Vec3::new(0, 0, 0), I16Vec3::new(32, 0, 0), &stone()),
        None
    );
    assert_eq!(
        grid.set_area(I16Vec3::new(-1, 0, 0), I16Vec3::new(3, 0, 0), &stone()),
        None
    );
    assert_eq!(grid.get(I16Vec3::new(0, 0, 0)), None);
    // A box whose end lies before its start holds nothing.
    assert_eq!(
        grid.set_area(I16Vec3::new(5, 5, 5), I16Vec3::new(4, 9, 9), &stone()),
        Some(())
    );
    assert_eq!(grid.get(I16Vec3::new(5, 5, 5)), None);
    assert_eq!(grid.get(I16Vec3::new(4, 5, 5)), None);
}

#[test]
fn chunk_index_and_fill() {
    assert_eq!(Chunk::to_index(I16Vec3::new(0, 0, 0)), 0);
    assert_eq!(Chunk::to_index(I16Vec3::new(1, 2, 3)), 1 + 2 * 32 + 3 * 1024);
    assert_eq!(Chunk::to_index(I16Vec3::new(31, 31, 31)), 32767);
    assert_eq!(Chunk::to_block_coord(-1), 31);
    assert_eq!(Chunk::to_block_coordinates(IVec3::new(-1, 32, 33)), I16Vec3::new(31, 0, 1));
    assert_eq!(
        Chunk::to_block_coordinates_from_index(1 + 2 * 32 + 3 * 1024),
        Some(I16Vec3::new(1, 2, 3))
    );
    assert_eq!(Chunk::to_block_coordinates_from_index(32768), None);
    let mut chunk = Chunk::new(IVec3::new(7, 8, 9));
    assert_eq!(chunk.position, IVec3::new(7, 8, 9));
    assert_eq!(count_solid(&chunk), 0);
    chunk.set_area(I16Vec3::new(0, 0, 0), I16Vec3::new(31, 0, 31), &dirt());
    assert_eq!(count_solid(&chunk), 1024);
    assert_eq!(chunk.contents.get(I16Vec3::new(31, 0, 31)), Some(&dirt()));
    assert_eq!(chunk.contents.get(I16Vec3::new(0, 1, 0)), None);
    assert_eq!(chunk.position, IVec3::new(7, 8, 9));
}

#[test]
fn height_map_needs_one_height_for_each_column() {
    assert!(HeightMap::new(vec![0; 1023]).is_none());
    assert!(HeightMap::new(vec![0; 1025]).is_none());
    assert!(HeightMap::new(Vec::new()).is_none());
    let mut heights = vec![0; 1024];
    heights[3 * 32 + 5] = 17;
    let map = HeightMap::new(heights).unwrap();
    assert_eq!(map.height(3, 5), 17);
    assert_eq!(map.height(5, 3), 0);
}

#[test]
fn terrain_of_the_chunk_at_ground_level() {
    let chunk = Chunk::generate(IVec3::new(0, 0, 0), &flat(2));
    // Cells 0, 1 and 2 of every column are stone.
    assert_eq!(count_solid(&chunk), 32 * 32 * 3);
    assert_eq!(chunk.contents.get(I16Vec3::new(0, 0, 0)), Some(&stone()));
    assert_eq!(chunk.contents.get(I16Vec3::new(31, 2, 31)), Some(&stone()));
    assert_eq!(chunk.contents.get(I16Vec3::new(31, 3, 31)), None);
    assert_eq!(chunk.position, IVec3::new(0, 0, 0));
}

#[test]
fn terrain_below_and_above_ground_level() {
    // Terrain that ends above the chunk fills it.
    let below = Chunk::generate(IVec3::new(3, -1, 4), &flat(2));
    assert_eq!(count_solid(&below), 32768);
    assert_eq!(below.position, IVec3::new(3, -1, 4));
    // Terrain that ends below the chunk leaves it empty.
    let above = Chunk::generate(IVec3::new(0, 1, 0), &flat(2));
    assert_eq!(count_solid(&above), 0);
    let deep = Chunk::generate(IVec3::new(0, -1, 0), &flat(-33));
    assert_eq!(count_solid(&deep), 0);
    // The lowest terrain that still reaches the chunk: one layer.
    let edge = Chunk::generate(IVec3::new(0, -1, 0), &flat(-32));
    assert_eq!(count_solid(&edge), 1024);
    assert!(edge.contents.get(I16Vec3::new(9, 0, 9)).is_some());
    assert!(edge.contents.get(I16Vec3::new(9, 1, 9)).is_none());
    // Height -20 in the chunk below ground: cells 0 to 12.
    let partial = Chunk::generate(IVec3::new(0, -1, 0), &flat(-20));
    assert_eq!(count_solid(&partial), 1024 * 13);
    // A chunk above ground whose terrain reaches it is filled to its top.
    let high = Chunk::generate(IVec3::new(0, 1, 0), &flat(32));
    assert_eq!(count_solid(&high), 32768);
    let ground = Chunk::generate(IVec3::new(0, 0, 0), &flat(0));
    assert_eq!(count_solid(&ground), 1024);
    let none = Chunk::generate(IVec3::new(0, 0, 0), &flat(-1));
    assert_eq!(count_solid(&none), 0);
    let full = Chunk::generate(IVec3::new(0, 0, 0), &flat(1000));
    assert_eq!(count_solid(&full), 32768);
}

#[test]
fn terrain_follows_the_height_of_each_column() {
    let mut heights = vec![-1; 1024];
    heights[3 * 32 + 5] = 4;
    heights[0] = 0;
    let map = HeightMap::new(heights).unwrap();
    let chunk = Chunk::generate(IVec3::new(0, 0, 0), &map);
    assert_eq!(count_solid(&chunk), 5 + 1);
    for y in 0..5 {
        assert!(chunk.contents.get(I16Vec3::new(3, y, 5)).is_some());
    }
    assert!(chunk.contents.get(I16Vec3::new(3, 5, 5)).is_none());
    assert!(chunk.contents.get(I16Vec3::new(5, 0, 3)).is_none());
    assert!(chunk.contents.get(I16Vec3::new(0, 0, 0)).is_some());
    let same = ChunkGrid::generate_chunk(IVec3::new(0, 0, 0), &map);
    assert_eq!(count_solid(&same), 6);
}

#[test]
fn terrain_at_the_ends_of_the_range() {
    let top = Chunk::generate(IVec3::new(0, i32::MAX, 0), &flat(i32::MAX));
    assert_eq!(count_solid(&top), 0);
    let bottom = Chunk::generate(IVec3::new(0, i32::MIN, 0), &flat(i32::MIN));
    assert_eq!(count_solid(&bottom), 32768);
}

#[test]
fn stored_chunk_reads_back_cell_for_cell() {
    let mut chunk = Chunk::new(IVec3::new(1, 2, 3));
    chunk.contents.set(I16Vec3::new(0, 0, 0), stone()).unwrap();
    chunk.contents.set(I16Vec3::new(31, 31, 31), dirt()).unwrap();
    chunk.contents.set(I16Vec3::new(4, 5, 6), dirt()).unwrap();
    chunk.set_area(I16Vec3::new(10, 0, 10), I16Vec3::new(12, 3, 12), &stone());
    let stored = chunk.save();
    assert_eq!(stored.cells.len(), CHUNK_BLOCK_COUNT);
    assert_eq!(stored.cells[0], Some(stone()));
    assert_eq!(stored.cells[1], None);
    assert_eq!(stored.cells[32767], Some(dirt()));
    // The position is the one given to the reader, not one that is stored.
    let loaded = Chunk::load(IVec3::new(-7, 0, 9), stored).unwrap();
    assert_eq!(loaded.position, IVec3::new(-7, 0, 9));
    for index in 0..CHUNK_BLOCK_COUNT {
        let p = BlockGrid::to_block_coordinates_from_index(index).unwrap();
        assert_eq!(loaded.contents.get(p), chunk.contents.get(p));
    }
}

#[test]
fn short_stored_chunk_ends_in_air() {
    let stored = SerializableChunkContents {
        cells: vec![Some(stone()), None, Some(dirt())],
    };
    let grid = stored.into_grid().unwrap();
    assert_eq!(grid.get(I16Vec3::new(0, 0, 0)), Some(&stone()));
    assert_eq!(grid.get(I16Vec3::new(1, 0, 0)), None);
    assert_eq!(grid.get(I16Vec3::new(2, 0, 0)), Some(&dirt()));
    for index in 3..CHUNK_BLOCK_COUNT {
        let p = BlockGrid::to_block_coordinates_from_index(index).unwrap();
        assert_eq!(grid.get(p), None);
    }
    let empty = SerializableChunkContents { cells: Vec::new() };
    assert!(empty.into_grid().is_some());
}

#[test]
fn stored_chunk_with_too_many_cells_is_refused() {
    let stored = SerializableChunkContents {
        cells: vec![None; CHUNK_BLOCK_COUNT + 1],
    };
    assert!(stored.into_grid().is_none());
    let stored = SerializableChunkContents {
        cells: vec![None; CHUNK_BLOCK_COUNT + 1],
    };
    assert!(Chunk::load(IVec3::new(0, 0, 0), stored).is_none());
    let full = SerializableChunkContents {
        cells: vec![Some(stone()); CHUNK_BLOCK_COUNT],
    };
    assert_eq!(count_solid(&Chunk::load(IVec3::new(0, 0, 0), full).unwrap()), 32768);
}

#[test]
fn load_or_generate_prefers_the_stored_chunk() {
    let stored = SerializableChunkContents {
        cells: vec![Some(dirt())],
    };
    let chunk = Chunk::load_or_generate(IVec3::new(0, 0, 0), Some(stored), &flat(2));
    assert_eq!(count_solid(&chunk), 1);
    assert_eq!(chunk.contents.get(I16Vec3::new(0, 0, 0)), Some(&dirt()));
    assert_eq!(chunk.position, IVec3::new(0, 0, 0));
    let generated = Chunk::load_or_generate(IVec3::new(0, 0, 0), None, &flat(2));
    assert_eq!(count_solid(&generated), 3072);
    let too_long = SerializableChunkContents {
        cells: vec![Some(dirt()); CHUNK_BLOCK_COUNT + 5],
    };
    let fallback = Chunk::load_or_generate(IVec3::new(0, 0, 0), Some(too_long), &flat(2));
    assert_eq!(count_solid(&fallback), 3072);
    assert_eq!(fallback.contents.get(I16Vec3::new(0, 0, 0)), Some(&stone()));
}
