use voxel_world::block::Block;
use voxel_world::chunk::{BlockGrid, Chunk, CHUNK_BLOCK_COUNT};
use voxel_world::coord_map::CoordMap;
use voxel_world::grid::ChunkGrid;
use voxel_world::identifier::Identifier;
use voxel_world::math::{I16Vec3, IVec3};

fn stone() -> Block {
    Block::new(Identifier::new("builtin", "stone"))
}

fn dirt() -> Block {
    Block::new(Identifier::new("builtin", "dirt"))
}

fn count_solid(contents: &BlockGrid) -> usize {
    let mut count = 0;
    for index in 0..CHUNK_BLOCK_COUNT {
        let position = BlockGrid::to_block_coordinates_from_index(index).unwrap();
        if contents.get(position).is_some() {
            count += 1;
        }
    }
    count
}

#[test]
fn coord_map_holds_what_was_inserted() {
    let mut map: CoordMap<u32> = CoordMap::new();
    assert_eq!(map.len(), 0);
    assert!(!map.contains_key(IVec3::new(1, 2, 3)));
    assert_eq!(map.get(IVec3::new(1, 2, 3)), None);
    assert_eq!(map.insert(IVec3::new(1, 2, 3), 10), None);
    assert_eq!(map.insert(IVec3::new(3, 2, 1), 20), None);
    assert_eq!(map.insert(IVec3::new(-1, -2, -3), 30), None);
    assert_eq!(map.len(), 3);
    assert!(map.contains_key(IVec3::new(1, 2, 3)));
    assert_eq!(map.get(IVec3::new(1, 2, 3)), Some(&10));
    assert_eq!(map.get(IVec3::new(3, 2, 1)), Some(&20));
    assert_eq!(map.get(IVec3::new(-1, -2, -3)), Some(&30));
    assert_eq!(map.get(IVec3::new(1, 2, 4)), None);
    assert_eq!(map.get(IVec3::new(2, 1, 3)), None);
}

#[test]
fn coord_map_replaces_and_removes() {
    let mut map: CoordMap<u32> = CoordMap::new();
    map.insert(IVec3::new(1, 2, 3), 10);
    map.insert(IVec3::new(3, 2, 1), 20);
    map.insert(IVec3::new(0, 0, 0), 30);
    assert_eq!(map.insert(IVec3::new(1, 2, 3), 11), Some(10));
    assert_eq!(map.len(), 3);
    assert_eq!(map.get(IVec3::new(1, 2, 3)), Some(&11));
    assert_eq!(map.remove(IVec3::new(1, 2, 3)), Some(11));
    assert_eq!(map.remove(IVec3::new(1, 2, 3)), None);
    assert_eq!(map.len(), 2);
    assert_eq!(map.get(IVec3::new(1, 2, 3)), None);
    assert_eq!(map.get(IVec3::new(3, 2, 1)), Some(&20));
    assert_eq!(map.get(IVec3::new(0, 0, 0)), Some(&30));
    assert_eq!(map.remove(IVec3::new(0, 0, 0)), Some(30));
    assert_eq!(map.remove(IVec3::new(3, 2, 1)), Some(20));
    assert_eq!(map.len(), 0);
    assert_eq!(map.get(IVec3::new(3, 2, 1)), None);
    assert_eq!(map.insert(IVec3::new(3, 2, 1), 40), None);
    assert_eq!(map.get(IVec3::new(3, 2, 1)), Some(&40));
}

#[test]
fn coord_map_hands_out_each_key_once() {
    let mut map: CoordMap<i32> = CoordMap::new();
    for x in -3..3 {
        for y in -3..3 {
            map.insert(IVec3::new(x, y, x * y), x + y);
        }
    }
    map.remove(IVec3::new(0, 0, 0));
    map.remove(IVec3::new(-3, -3, 9));
    let mut keys = map.keys();
    assert_eq!(keys.len(), 34);
    assert_eq!(map.len(), 34);
    keys.sort_by_key(|k| (k.x, k.y, k.z));
    keys.dedup();
    assert_eq!(keys.len(), 34);
    for key in keys {
        assert_eq!(key.z, key.x * key.y);
        assert_eq!(map.get(key), Some(&(key.x + key.y)));
    }
}

#[test]
fn grid_holds_each_chunk_at_its_position() {
    let mut grid = ChunkGrid::new();
    assert_eq!(grid.len(), 0);
    assert!(grid.insert(Chunk::new(IVec3::new(0, 0, 0))).is_none());
    assert!(grid.insert(Chunk::new(IVec3::new(1, 0, 0))).is_none());
    assert!(grid.contains_key(IVec3::new(1, 0, 0)));
    assert!(!grid.contains_key(IVec3::new(0, 1, 0)));
    assert_eq!(count_solid(grid.get(IVec3::new(1, 0, 0)).unwrap()), 0);
    assert!(grid.get(IVec3::new(0, 1, 0)).is_none());
    let mut replacement = Chunk::new(IVec3::new(1, 0, 0));
    replacement.contents.set(I16Vec3::new(0, 0, 0), stone()).unwrap();
    let previous = grid.insert(replacement).unwrap();
    assert_eq!(count_solid(&previous.contents), 0);
    assert_eq!(previous.position, IVec3::new(1, 0, 0));
    assert_eq!(grid.len(), 2);
    assert_eq!(count_solid(grid.get(IVec3::new(1, 0, 0)).unwrap()), 1);
    let removed = grid.remove(IVec3::new(1, 0, 0)).unwrap();
    assert_eq!(removed.position, IVec3::new(1, 0, 0));
    assert_eq!(count_solid(&removed.contents), 1);
    assert!(grid.remove(IVec3::new(1, 0, 0)).is_none());
    assert_eq!(grid.positions(), vec![IVec3::new(0, 0, 0)]);
}

#[test]
fn blocks_are_found_by_their_world_position() {
    let mut grid = ChunkGrid::new();
    grid.insert(Chunk::new(IVec3::new(0, 0, 0)));
    grid.insert(Chunk::new(IVec3::new(-1, 0, 0)));
    assert_eq!(grid.set_block(IVec3::new(-1, 0, 0), Some(stone())), Some(()));
    assert_eq!(grid.set_block(IVec3::new(33, 0, 0), Some(stone())), None);
    assert_eq!(grid.set_block(IVec3::new(0, 31, 5), Some(dirt())), Some(()));
    assert_eq!(grid.get_block(IVec3::new(-1, 0, 0)), Some(&stone()));
    assert_eq!(grid.get_block(IVec3::new(0, 31, 5)), Some(&dirt()));
    assert_eq!(grid.get_block(IVec3::new(0, 0, 0)), None);
    assert_eq!(grid.get_block(IVec3::new(33, 0, 0)), None);
    // The block at world x = -1 is the cell x = 31 of the chunk at x = -1.
    let left = grid.get(IVec3::new(-1, 0, 0)).unwrap();
    assert_eq!(left.get(I16Vec3::new(31, 0, 0)), Some(&stone()));
    assert_eq!(count_solid(left), 1);
    assert_eq!(grid.get_block_wide(-1, 0, 0), Some(&stone()));
    assert_eq!(grid.get_block_wide(0, 31, 5), Some(&dirt()));
    assert_eq!(grid.get_block_wide(-33, 0, 0), None);
    assert_eq!(grid.get_block_wide(i64::MAX, 0, 0), None);
    assert_eq!(grid.get_block_wide(0, i64::MIN, 0), None);
    // Clearing a cell.
    assert_eq!(grid.set_block(IVec3::new(-1, 0, 0), None), Some(()));
    assert_eq!(grid.get_block(IVec3::new(-1, 0, 0)), None);
    assert_eq!(grid.len(), 2);
}

#[test]
fn blocks_are_changed_in_place() {
    let mut grid = ChunkGrid::new();
    grid.insert(Chunk::new(IVec3::new(-1, 0, 0)));
    grid.set_block(IVec3::new(-1, 5, 40 - 64), Some(stone()));
    assert!(grid.get_block_mut(IVec3::new(-1, 5, 40 - 64)).is_none());
    grid.insert(Chunk::new(IVec3::new(-1, 0, -1)));
    grid.set_block(IVec3::new(-1, 5, -24), Some(stone())).unwrap();
    *grid.get_block_mut(IVec3::new(-1, 5, -24)).unwrap() = dirt();
    assert_eq!(grid.get_block(IVec3::new(-1, 5, -24)), Some(&dirt()));
    assert!(grid.get_block_mut(IVec3::new(-1, 5, -25)).is_none());
    assert!(grid.get_block_mut(IVec3::new(100, 5, -25)).is_none());
    assert_eq!(count_solid(grid.get(IVec3::new(-1, 0, -1)).unwrap()), 1);
    assert_eq!(count_solid(grid.get(IVec3::new(-1, 0, 0)).unwrap()), 0);
}

#[test]
fn setting_a_block_makes_no_chunk() {
    let mut grid = ChunkGrid::new();
    assert_eq!(grid.set_block(IVec3::new(5, 5, 5), Some(stone())), None);
    assert_eq!(grid.len(), 0);
    assert_eq!(grid.get_block(IVec3::new(5, 5, 5)), None);
}

#[test]
fn fill_an_area_across_chunks() {
    let mut grid = ChunkGrid::new();
    for x in -1..=0 {
        for z in -1..=0 {
            grid.insert(Chunk::new(IVec3::new(x, 0, z)));
        }
    }
    let start = IVec3::new(-2, 3, -1);
    let end = IVec3::new(1, 4, 0);
    assert_eq!(grid.set_blocks_in_area(start, end, stone()), Some(()));
    let mut count = 0;
    for x in -5..5 {
        for y in 0..8 {
            for z in -5..5 {
                let inside = (-2..=1).contains(&x) && (3..=4).contains(&y) && (-1..=0).contains(&z);
                assert_eq!(grid.get_block(IVec3::new(x, y, z)).is_some(), inside);
                if inside {
                    count += 1;
                }
            }
        }
    }
    assert_eq!(count, 4 * 2 * 2);
    let total: usize = grid
        .positions()
        .into_iter()
        .map(|p| count_solid(grid.get(p).unwrap()))
        .sum();
    assert_eq!(total, 16);
}

#[test]
fn fill_stops_at_the_first_chunk_that_is_missing() {
    let mut grid = ChunkGrid::new();
    grid.insert(Chunk::new(IVec3::new(0, 0, 0)));
    grid.insert(Chunk::new(IVec3::new(2, 0, 0)));
    let done = grid.set_blocks_in_area(IVec3::new(30, 0, 0), IVec3::new(70, 0, 0), dirt());
    assert_eq!(done, None);
    // The chunk before the gap was filled, the one behind it was not.
    assert_eq!(grid.get_block(IVec3::new(29, 0, 0)), None);
    assert_eq!(grid.get_block(IVec3::new(30, 0, 0)), Some(&dirt()));
    assert_eq!(grid.get_block(IVec3::new(31, 0, 0)), Some(&dirt()));
    assert_eq!(grid.get_block(IVec3::new(64, 0, 0)), None);
    assert_eq!(grid.get_block(IVec3::new(70, 0, 0)), None);
    assert_eq!(grid.len(), 2);
    // An area that ends in a chunk before the one it starts in holds no
    // chunk, so none is missing.
    let mut empty = ChunkGrid::new();
    assert_eq!(
        empty.set_blocks_in_area(IVec3::new(40, 0, 0), IVec3::new(4, 0, 0), dirt()),
        Some(())
    );
    assert_eq!(
        empty.set_blocks_in_area(IVec3::new(0, 0, 0), IVec3::new(0, 0, 0), dirt()),
        None
    );
    // An area that ends before it starts inside one chunk asks for that
    // chunk and fills nothing.
    assert_eq!(
        empty.set_blocks_in_area(IVec3::new(5, 0, 0), IVec3::new(4, 0, 0), dirt()),
        None
    );
    empty.insert(Chunk::new(IVec3::new(0, 0, 0)));
    assert_eq!(
        empty.set_blocks_in_area(IVec3::new(5, 0, 0), IVec3::new(4, 0, 0), dirt()),
        Some(())
    );
    assert_eq!(count_solid(empty.get(IVec3::new(0, 0, 0)).unwrap()), 0);
}
