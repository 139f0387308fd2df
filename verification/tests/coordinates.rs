use voxel_world::chunk::{
    BlockGrid, CHUNK_BLOCK_COUNT, CHUNK_SIZE_I16, CHUNK_SIZE_I32, CHUNK_SIZE_USIZE,
};
use voxel_world::grid::ChunkGrid;
use voxel_world::math::{I16Vec3, IVec3};

#[test]
fn raw_coord_to_chunk_coord() {
    // Individual coordinates
    assert_eq!(ChunkGrid::to_chunk_coord(0), 0);
    assert_eq!(ChunkGrid::to_chunk_coord(CHUNK_SIZE_I32 - 1), 0);
    assert_eq!(ChunkGrid::to_chunk_coord(CHUNK_SIZE_I32), 1);
    assert_eq!(ChunkGrid::to_chunk_coord(-1), -1);
    assert_eq!(ChunkGrid::to_chunk_coord(-CHUNK_SIZE_I32), -1);
    assert_eq!(ChunkGrid::to_chunk_coord(-CHUNK_SIZE_I32 - 1), -2);

    // Coordinate sets
    assert_eq!(ChunkGrid::to_chunk_coordinates(IVec3::splat(0)), IVec3::splat(0));
    assert_eq!(
        ChunkGrid::to_chunk_coordinates(IVec3::splat(CHUNK_SIZE_I32 - 1)),
        IVec3::splat(0)
    );
    assert_eq!(
        ChunkGrid::to_chunk_coordinates(IVec3::splat(CHUNK_SIZE_I32)),
        IVec3::splat(1)
    );
    assert_eq!(ChunkGrid::to_chunk_coordinates(IVec3::splat(-1)), IVec3::splat(-1));
    assert_eq!(
        ChunkGrid::to_chunk_coordinates(IVec3::splat(-CHUNK_SIZE_I32)),
        IVec3::splat(-1)
    );
    assert_eq!(
        ChunkGrid::to_chunk_coordinates(IVec3::splat(-CHUNK_SIZE_I32 - 1)),
        IVec3::splat(-2)
    );

    // Integer coordinate sets
    assert_eq!(
        ChunkGrid::to_chunk_coordinates_from_ivec3(IVec3::splat(0)),
        IVec3::splat(0)
    );
    assert_eq!(
        ChunkGrid::to_chunk_coordinates_from_ivec3(IVec3::splat(CHUNK_SIZE_I32 - 1)),
        IVec3::splat(0)
    );
    assert_eq!(
        ChunkGrid::to_chunk_coordinates_from_ivec3(IVec3::splat(CHUNK_SIZE_I32)),
        IVec3::splat(1)
    );
    assert_eq!(
        ChunkGrid::to_chunk_coordinates_from_ivec3(IVec3::splat(-1)),
        IVec3::splat(-1)
    );
    assert_eq!(
        ChunkGrid::to_chunk_coordinates_from_ivec3(IVec3::splat(-CHUNK_SIZE_I32)),
        IVec3::splat(-1)
    );
    assert_eq!(
        ChunkGrid::to_chunk_coordinates_from_ivec3(IVec3::splat(-CHUNK_SIZE_I32 - 1)),
        IVec3::splat(-2)
    );
}

#[test]
fn raw_coord_to_grid_coord() {
    // Individual coordinates
    assert_eq!(BlockGrid::to_block_coord(0), 0);
    assert_eq!(BlockGrid::to_block_coord(1), 1);
    assert_eq!(BlockGrid::to_block_coord(-1), CHUNK_SIZE_I16 - 1);
    assert_eq!(BlockGrid::to_block_coord(CHUNK_SIZE_I32), 0);
    assert_eq!(BlockGrid::to_block_coord(-CHUNK_SIZE_I32), 0);

    // Coordinate sets
    assert_eq!(BlockGrid::to_block_coordinates(IVec3::splat(0)), I16Vec3::splat(0));
    assert_eq!(BlockGrid::to_block_coordinates(IVec3::splat(1)), I16Vec3::splat(1));
    assert_eq!(
        BlockGrid::to_block_coordinates(IVec3::splat(-1)),
        I16Vec3::splat(CHUNK_SIZE_I16 - 1)
    );
    assert_eq!(
        BlockGrid::to_block_coordinates(IVec3::splat(CHUNK_SIZE_I32)),
        I16Vec3::splat(0)
    );
    assert_eq!(
        BlockGrid::to_block_coordinates(IVec3::splat(-CHUNK_SIZE_I32)),
        I16Vec3::splat(0)
    );
}

#[test]
fn block_coord_indexing() {
    // Block coordinates into indices
    assert_eq!(BlockGrid::to_index(I16Vec3::splat(0)), Some(0));
    assert_eq!(BlockGrid::to_index(I16Vec3::new(1, 0, 0)), Some(1));
    assert_eq!(BlockGrid::to_index(I16Vec3::new(0, 1, 0)), Some(CHUNK_SIZE_USIZE));
    assert_eq!(
        BlockGrid::to_index(I16Vec3::new(0, 0, 1)),
        Some(CHUNK_SIZE_USIZE * CHUNK_SIZE_USIZE)
    );
    assert_eq!(
        BlockGrid::to_index(I16Vec3::splat(CHUNK_SIZE_I16 - 1)),
        Some(i16::MAX as usize)
    );

    assert_eq!(BlockGrid::to_index(I16Vec3::splat(i16::MAX)), None);
    assert_eq!(BlockGrid::to_index(I16Vec3::splat(-1)), None);

    // Indices into block coordinates
    assert_eq!(
        BlockGrid::to_block_coordinates_from_index(0),
        Some(I16Vec3::splat(0))
    );
    assert_eq!(
        BlockGrid::to_block_coordinates_from_index(1),
        Some(I16Vec3::new(1, 0, 0))
    );
    assert_eq!(
        BlockGrid::to_block_coordinates_from_index(CHUNK_SIZE_USIZE),
        Some(I16Vec3::new(0, 1, 0))
    );
    assert_eq!(
        BlockGrid::to_block_coordinates_from_index(CHUNK_SIZE_USIZE * CHUNK_SIZE_USIZE),
        Some(I16Vec3::new(0, 0, 1))
    );
    assert_eq!(
        BlockGrid::to_block_coordinates_from_index(i16::MAX as usize),
        Some(I16Vec3::splat(CHUNK_SIZE_I16 - 1))
    );

    assert_eq!(
        BlockGrid::to_block_coordinates_from_index(i16::MAX as usize + 1),
        None
    );
    assert_eq!(BlockGrid::to_block_coordinates_from_index(CHUNK_BLOCK_COUNT), None);
}

#[test]
fn chunk_and_block_coordinates_make_the_world_coordinate() {
    for raw in [-100, -65, -64, -33, -32, -31, -1, 0, 1, 31, 32, 33, 63, 64, 1000] {
        let chunk = ChunkGrid::to_chunk_coord(raw);
        let block = BlockGrid::to_block_coord(raw);
        assert!((0..CHUNK_SIZE_I16).contains(&block));
        assert_eq!(chunk * CHUNK_SIZE_I32 + block as i32, raw);
    }
}

#[test]
fn chunks_follow_each_other_across_zero() {
    assert_eq!(ChunkGrid::to_chunk_coord(-1), -1);
    assert_eq!(BlockGrid::to_block_coord(-1), 31);
    assert_eq!(ChunkGrid::to_chunk_coord(-32), -1);
    assert_eq!(BlockGrid::to_block_coord(-32), 0);
    assert_eq!(ChunkGrid::to_chunk_coord(-33), -2);
    assert_eq!(BlockGrid::to_block_coord(-33), 31);
    for raw in -70..70 {
        assert_eq!(
            ChunkGrid::to_chunk_coord(raw),
            ChunkGrid::to_chunk_coord(raw - CHUNK_SIZE_I32) + 1
        );
        assert_eq!(
            BlockGrid::to_block_coord(raw),
            BlockGrid::to_block_coord(raw - CHUNK_SIZE_I32)
        );
    }
}

#[test]
fn chunk_coordinates_at_the_ends_of_the_range() {
    assert_eq!(ChunkGrid::to_chunk_coord(i32::MIN), -67108864);
    assert_eq!(BlockGrid::to_block_coord(i32::MIN), 0);
    assert_eq!(ChunkGrid::to_chunk_coord(i32::MAX), 67108863);
    assert_eq!(BlockGrid::to_block_coord(i32::MAX), 31);
}

#[test]
fn index_and_position_determine_each_other() {
    for index in 0..CHUNK_BLOCK_COUNT {
        let position = BlockGrid::to_block_coordinates_from_index(index).unwrap();
        assert_eq!(BlockGrid::to_index(position), Some(index));
    }
    assert_eq!(BlockGrid::to_index(I16Vec3::new(3, 4, 5)), Some(3 + 4 * 32 + 5 * 1024));
    assert_eq!(
        BlockGrid::to_block_coordinates_from_index(3 + 4 * 32 + 5 * 1024),
        Some(I16Vec3::new(3, 4, 5))
    );
    assert_eq!(BlockGrid::to_index(I16Vec3::new(32, 0, 0)), None);
    assert_eq!(BlockGrid::to_index(I16Vec3::new(0, 32, 0)), None);
    assert_eq!(BlockGrid::to_index(I16Vec3::new(0, 0, 32)), None);
    assert_eq!(BlockGrid::to_index(I16Vec3::new(0, -1, 0)), None);
    assert_eq!(BlockGrid::to_block_coordinates_from_index(usize::MAX), None);
}
