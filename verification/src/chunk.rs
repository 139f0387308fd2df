//! A chunk: a cube of cells, each empty or holding one block.

use crate::block::Block;
use crate::identifier::{Identifier, DEFAULT_NAMESPACE};
use crate::math::{I16Vec3, IVec3};
use vstd::prelude::*;

verus! {

/// Edge length of a chunk, in blocks. The largest index of a cell has to fit
/// in an `i16`, so the edge cannot be longer than 32.
pub const CHUNK_SIZE_I16: i16 = 32;

pub const CHUNK_SIZE_I32: i32 = 32;

pub const CHUNK_SIZE_USIZE: usize = 32;

/// Number of cells in a chunk.
pub const CHUNK_BLOCK_COUNT: usize = 32768;

/// The chunk that holds a world coordinate, on one axis: the quotient of a
/// division by the chunk's edge that rounds towards negative infinity.
pub open spec fn chunk_coord_of(raw: int) -> int {
    raw / 32
}

/// Where a world coordinate lies inside its chunk, on one axis: the
/// remainder of that division, never negative.
pub open spec fn block_coord_of(raw: int) -> int {
    raw % 32
}

/// True for the positions inside a chunk: each component at least 0 and
/// under 32.
pub open spec fn in_chunk(x: int, y: int, z: int) -> bool {
    0 <= x < 32 && 0 <= y < 32 && 0 <= z < 32
}

/// The place of the cell at `(x, y, z)` in a chunk's cell sequence: `x` runs
/// fastest, then `y`, then `z`.
pub open spec fn cell_index(x: int, y: int, z: int) -> int {
    x + y * 32 + z * 1024
}

/// The components of the position whose cell stands at `index`.
pub open spec fn cell_x(index: int) -> int {
    index % 32
}

pub open spec fn cell_y(index: int) -> int {
    index / 32 % 32
}

pub open spec fn cell_z(index: int) -> int {
    index / 1024
}

/// The cell at `(x, y, z)` of a cell sequence; `None` outside the chunk too.
pub open spec fn cell_at(cells: Seq<Option<Block>>, x: int, y: int, z: int) -> Option<Block> {
    if in_chunk(x, y, z) {
        cells[cell_index(x, y, z)]
    } else {
        None
    }
}

/// True where `(x, y, z)` lies in the box from `start` to `end`, both ends
/// included. A box with an end before its start holds nothing.
pub open spec fn in_box(start: I16Vec3, end: I16Vec3, x: int, y: int, z: int) -> bool {
    &&& start.x <= x <= end.x
    &&& start.y <= y <= end.y
    &&& start.z <= z <= end.z
}

/// The cells after the box from `start` to `end` was filled with `block`.
pub open spec fn fill_area(
    cells: Seq<Option<Block>>,
    start: I16Vec3,
    end: I16Vec3,
    block: Block,
) -> Seq<Option<Block>> {
    Seq::new(
        cells.len(),
        |i: int|
            if in_box(start, end, cell_x(i), cell_y(i), cell_z(i)) {
                Some(block)
            } else {
                cells[i]
            },
    )
}

/// A world coordinate is made of its chunk and its place in the chunk: the
/// place is at least 0 and under 32, and 32 times the chunk plus the place
/// is the coordinate, below zero as above.
pub proof fn lemma_chunk_and_block_coord(raw: int)
    ensures
        0 <= block_coord_of(raw) < 32,
        chunk_coord_of(raw) * 32 + block_coord_of(raw) == raw,
{
}

/// One chunk's edge further along an axis lies the next chunk, at the same
/// place in it: there is no gap and no doubled chunk at zero.
pub proof fn lemma_next_chunk(raw: int)
    ensures
        chunk_coord_of(raw) == chunk_coord_of(raw - 32) + 1,
        block_coord_of(raw) == block_coord_of(raw - 32),
{
}

/// A position inside the chunk and its index determine each other.
pub proof fn lemma_index_of_position(x: int, y: int, z: int)
    requires
        in_chunk(x, y, z),
    ensures
        0 <= cell_index(x, y, z) < 32768,
        cell_x(cell_index(x, y, z)) == x,
        cell_y(cell_index(x, y, z)) == y,
        cell_z(cell_index(x, y, z)) == z,
{
}

/// An index of a cell and its position determine each other.
pub proof fn lemma_position_of_index(index: int)
    requires
        0 <= index < 32768,
    ensures
        in_chunk(cell_x(index), cell_y(index), cell_z(index)),
        cell_index(cell_x(index), cell_y(index), cell_z(index)) == index,
{
}

/// The dense cell array of a chunk: 32 x 32 x 32 cells, `None` for air.
#[derive(Debug)]
pub struct BlockGrid {
    blocks: Vec<Option<Block>>,
}

impl View for BlockGrid {
    type V = Seq<Option<Block>>;

    closed spec fn view(&self) -> Seq<Option<Block>> {
        self.blocks@
    }
}

impl BlockGrid {
    /// Every grid has one cell for each position of a chunk.
    #[verifier::type_invariant]
    pub open spec fn well_formed(self) -> bool {
        self@.len() == 32768
    }

    /// A grid of air.
    pub fn new() -> (grid: Self)
        ensures
            grid@ == Seq::new(32768, |i: int| None::<Block>),
    {
        let mut blocks: Vec<Option<Block>> = Vec::new();
        let mut i: usize = 0;
        while i < CHUNK_BLOCK_COUNT
            invariant
                i <= CHUNK_BLOCK_COUNT,
                blocks@.len() == i,
                forall|j: int| 0 <= j < i ==> blocks@[j] == None::<Block>,
            decreases CHUNK_BLOCK_COUNT - i,
        {
            blocks.push(None);
            i += 1;
        }
        assert(blocks@ =~= Seq::new(32768, |i: int| None::<Block>));
        BlockGrid { blocks }
    }

    pub fn to_block_coord(raw_coordinate: i32) -> (block_coord: i16)
        ensures
            block_coord == block_coord_of(raw_coordinate as int),
            0 <= block_coord < 32,
    {
        let block_coord: i32 = raw_coordinate % CHUNK_SIZE_I32;
        if block_coord >= 0 {
            return block_coord as i16;
        }
        (block_coord + CHUNK_SIZE_I32) as i16
    }

    pub fn to_block_coordinates(raw_coordinates: IVec3) -> (block: I16Vec3)
        ensures
            block.x == block_coord_of(raw_coordinates.x as int),
            block.y == block_coord_of(raw_coordinates.y as int),
            block.z == block_coord_of(raw_coordinates.z as int),
            in_chunk(block.x as int, block.y as int, block.z as int),
    {
        I16Vec3::new(
            Self::to_block_coord(raw_coordinates.x),
            Self::to_block_coord(raw_coordinates.y),
            Self::to_block_coord(raw_coordinates.z),
        )
    }

    /// The position of the cell at `index`, or `None` where the chunk has no
    /// such cell.
    pub fn to_block_coordinates_from_index(index: usize) -> (position: Option<I16Vec3>)
        ensures
            index < 32768 ==> position == Some(
                I16Vec3 {
                    x: cell_x(index as int) as i16,
                    y: cell_y(index as int) as i16,
                    z: cell_z(index as int) as i16,
                },
            ),
            index < 32768 ==> in_chunk(
                cell_x(index as int),
                cell_y(index as int),
                cell_z(index as int),
            ),
            index >= 32768 ==> position is None,
    {
        if index >= CHUNK_BLOCK_COUNT {
            return None;
        }
        let i16_index: i16 = index as i16;
        Some(
            I16Vec3::new(
                i16_index % CHUNK_SIZE_I16,
                i16_index / CHUNK_SIZE_I16 % CHUNK_SIZE_I16,
                i16_index / 1024,
            ),
        )
    }

    /// The index of the cell at `block_coordinates`, or `None` where the
    /// position lies outside the chunk.
    pub fn to_index(block_coordinates: I16Vec3) -> (index: Option<usize>)
        ensures
            in_chunk(
                block_coordinates.x as int,
                block_coordinates.y as int,
                block_coordinates.z as int,
            ) ==> index == Some(
                cell_index(
                    block_coordinates.x as int,
                    block_coordinates.y as int,
                    block_coordinates.z as int,
                ) as usize,
            ),
            !in_chunk(
                block_coordinates.x as int,
                block_coordinates.y as int,
                block_coordinates.z as int,
            ) ==> index is None,
            index matches Some(i) ==> i < 32768,
    {
        if block_coordinates.x < 0 || block_coordinates.x >= CHUNK_SIZE_I16 {
            return None;
        }
        if block_coordinates.y < 0 || block_coordinates.y >= CHUNK_SIZE_I16 {
            return None;
        }
        if block_coordinates.z < 0 || block_coordinates.z >= CHUNK_SIZE_I16 {
            return None;
        }
        let x: usize = block_coordinates.x as usize;
        let y: usize = block_coordinates.y as usize;
        let z: usize = block_coordinates.z as usize;
        Some(x + y * CHUNK_SIZE_USIZE + z * CHUNK_SIZE_USIZE * CHUNK_SIZE_USIZE)
    }
}

impl BlockGrid {
    /// The block at `position`; `None` for air and for a position outside
    /// the chunk.
    pub fn get(&self, position: I16Vec3) -> (cell: Option<&Block>)
        ensures
            match cell {
                Some(block) => cell_at(
                    self@,
                    position.x as int,
                    position.y as int,
                    position.z as int,
                ) == Some(*block),
                None => cell_at(self@, position.x as int, position.y as int, position.z as int)
                    is None,
            },
    {
        proof {
            use_type_invariant(self);
        }
        match Self::to_index(position) {
            Some(index) => self.blocks[index].as_ref(),
            None => None,
        }
    }

    /// The block at `position`, to be changed in place; `None` for air and
    /// for a position outside the chunk.
    pub fn get_mut(&mut self, position: I16Vec3) -> (cell: Option<&mut Block>)
        ensures
            match cell {
                Some(block) => in_chunk(position.x as int, position.y as int, position.z as int)
                    && old(self)@[cell_index(
                    position.x as int,
                    position.y as int,
                    position.z as int,
                )] == Some(*block) && final(self)@ == old(self)@.update(
                    cell_index(position.x as int, position.y as int, position.z as int),
                    Some(*final(block)),
                ),
                None => cell_at(
                    old(self)@,
                    position.x as int,
                    position.y as int,
                    position.z as int,
                ) is None && final(self)@ == old(self)@,
            },
    {
        proof {
            use_type_invariant(&*self);
        }
        match Self::to_index(position) {
            Some(index) => self.blocks[index].as_mut(),
            None => None,
        }
    }

    /// Puts `cell` at `position`. Outside the chunk nothing changes and the
    /// result is `None`.
    pub fn set_cell(&mut self, position: I16Vec3, cell: Option<Block>) -> (done: Option<()>)
        ensures
            in_chunk(position.x as int, position.y as int, position.z as int) ==> done is Some
                && final(self)@ == old(self)@.update(
                cell_index(position.x as int, position.y as int, position.z as int),
                cell,
            ),
            !in_chunk(position.x as int, position.y as int, position.z as int) ==> done is None
                && final(self)@ == old(self)@,
    {
        proof {
            use_type_invariant(&*self);
        }
        match Self::to_index(position) {
            Some(index) => {
                self.blocks[index] = cell;
                Some(())
            },
            None => None,
        }
    }

    /// Puts `block` at `position`. Outside the chunk nothing changes and the
    /// result is `None`.
    pub fn set(&mut self, position: I16Vec3, block: Block) -> (done: Option<()>)
        ensures
            in_chunk(position.x as int, position.y as int, position.z as int) ==> done is Some
                && final(self)@ == old(self)@.update(
                cell_index(position.x as int, position.y as int, position.z as int),
                Some(block),
            ),
            !in_chunk(position.x as int, position.y as int, position.z as int) ==> done is None
                && final(self)@ == old(self)@,
    {
        self.set_cell(position, Some(block))
    }

    /// Fills the box from `start` to `end`, both included, with copies of
    /// `block`. Where an end lies outside the chunk nothing changes and the
    /// result is `None`.
    pub fn set_area(&mut self, start: I16Vec3, end: I16Vec3, block: &Block) -> (done: Option<()>)
        ensures
            in_chunk(start.x as int, start.y as int, start.z as int) && in_chunk(
                end.x as int,
                end.y as int,
                end.z as int,
            ) ==> done is Some && final(self)@ == fill_area(old(self)@, start, end, *block),
            !(in_chunk(start.x as int, start.y as int, start.z as int) && in_chunk(
                end.x as int,
                end.y as int,
                end.z as int,
            )) ==> done is None && final(self)@ == old(self)@,
    {
        proof {
            use_type_invariant(&*self);
        }
        if Self::to_index(start).is_none() {
            return None;
        }
        if Self::to_index(end).is_none() {
            return None;
        }
        let ghost before = self@;
        let mut x: i16 = start.x;
        while x <= end.x
            invariant
                in_chunk(start.x as int, start.y as int, start.z as int),
                in_chunk(end.x as int, end.y as int, end.z as int),
                start.x <= x <= 32,
                x <= end.x + 1 || start.x > end.x,
                self@.len() == 32768,
                before.len() == 32768,
                forall|i: int|
                    0 <= i < 32768 ==> #[trigger] self@[i] == (if in_box(
                        start,
                        end,
                        cell_x(i),
                        cell_y(i),
                        cell_z(i),
                    ) && cell_x(i) < x {
                        Some(*block)
                    } else {
                        before[i]
                    }),
            decreases 32 - x,
        {
            let mut y: i16 = start.y;
            while y <= end.y
                invariant
                    in_chunk(start.x as int, start.y as int, start.z as int),
                    in_chunk(end.x as int, end.y as int, end.z as int),
                    start.x <= x <= end.x,
                    start.y <= y <= 32,
                    self@.len() == 32768,
                    before.len() == 32768,
                    forall|i: int|
                        0 <= i < 32768 ==> #[trigger] self@[i] == (if in_box(
                            start,
                            end,
                            cell_x(i),
                            cell_y(i),
                            cell_z(i),
                        ) && (cell_x(i) < x || (cell_x(i) == x && cell_y(i) < y)) {
                            Some(*block)
                        } else {
                            before[i]
                        }),
                decreases 32 - y,
            {
                let mut z: i16 = start.z;
                while z <= end.z
                    invariant
                        in_chunk(start.x as int, start.y as int, start.z as int),
                        in_chunk(end.x as int, end.y as int, end.z as int),
                        start.x <= x <= end.x,
                        start.y <= y <= end.y,
                        start.z <= z <= 32,
                        self@.len() == 32768,
                        before.len() == 32768,
                        forall|i: int|
                            0 <= i < 32768 ==> #[trigger] self@[i] == (if in_box(
                                start,
                                end,
                                cell_x(i),
                                cell_y(i),
                                cell_z(i),
                            ) && (cell_x(i) < x || (cell_x(i) == x && (cell_y(i) < y || (cell_y(i)
                                == y && cell_z(i) < z)))) {
                                Some(*block)
                            } else {
                                before[i]
                            }),
                    decreases 32 - z,
                {
                    let index: usize = (x as usize) + (y as usize) * CHUNK_SIZE_USIZE + (z as usize)
                        * 1024;
                    proof {
                        lemma_index_of_position(x as int, y as int, z as int);
                    }
                    self.blocks[index] = Some(block.clone());
                    z += 1;
                }
                y += 1;
            }
            x += 1;
        }
        assert(self@ =~= fill_area(before, start, end, *block));
        Some(())
    }
}

/// The terrain height of each column of a chunk, in world blocks: one height
/// for each pair of `x` and `z`, the one of `(x, z)` at place `x * 32 + z`.
pub struct HeightMap {
    heights: Vec<i32>,
}

impl View for HeightMap {
    type V = Seq<i32>;

    closed spec fn view(&self) -> Seq<i32> {
        self.heights@
    }
}

impl HeightMap {
    /// Every height map has one height for each column.
    #[verifier::type_invariant]
    pub open spec fn well_formed(self) -> bool {
        self@.len() == 1024
    }

    /// The height map that holds `heights`, where there is one height for
    /// each of the 32 x 32 columns.
    pub fn new(heights: Vec<i32>) -> (map: Option<Self>)
        ensures
            heights@.len() == 1024 ==> map is Some && map->0@ == heights@,
            heights@.len() != 1024 ==> map is None,
    {
        if heights.len() == 1024 {
            Some(HeightMap { heights })
        } else {
            None
        }
    }

    /// The height of the column at `x` and `z`.
    pub fn height(&self, x: i16, z: i16) -> (height: i32)
        requires
            0 <= x < 32,
            0 <= z < 32,
        ensures
            height == self@[x * 32 + z],
    {
        proof {
            use_type_invariant(self);
        }
        self.heights[(x as usize) * CHUNK_SIZE_USIZE + (z as usize)]
    }
}

/// The highest cell that generation fills in a column of terrain height
/// `height`, in a chunk at height `chunk_y` on the grid: the terrain height
/// plus 32 for each chunk between this one and ground level, and at most
/// the top cell. In a chunk above ground level a column that reaches the
/// chunk is therefore filled to the top.
pub open spec fn column_top(height: int, chunk_y: int) -> int {
    let top = height + (if chunk_y < 0 {
        -chunk_y
    } else {
        chunk_y
    }) * 32;
    if top < 31 {
        top
    } else {
        31
    }
}

/// True where generation puts a block: the column's terrain does not end
/// below the chunk, and the cell is no higher than the column's top.
pub open spec fn generated_solid(heights: Seq<i32>, chunk_y: int, x: int, y: int, z: int) -> bool {
    let height = heights[x * 32 + z] as int;
    height >= chunk_y * 32 && y <= column_top(height, chunk_y)
}

/// True where `cells` are the terrain of a chunk at height `chunk_y` on the
/// grid: stone where generation puts a block, air elsewhere.
pub open spec fn is_terrain(cells: Seq<Option<Block>>, heights: Seq<i32>, chunk_y: int) -> bool {
    forall|i: int|
        0 <= i < 32768 ==> match #[trigger] cells[i] {
            Some(block) => generated_solid(heights, chunk_y, cell_x(i), cell_y(i), cell_z(i))
                && block.identifier@ == (DEFAULT_NAMESPACE@, "stone"@),
            None => !generated_solid(heights, chunk_y, cell_x(i), cell_y(i), cell_z(i)),
        }
}

/// A chunk: its place on the chunk grid and its cells.
#[derive(Debug)]
pub struct Chunk {
    pub position: IVec3,
    pub contents: BlockGrid,
}

impl Chunk {
    /// A chunk of air at `position`.
    pub fn new(position: IVec3) -> (chunk: Self)
        ensures
            chunk.position == position,
            chunk.contents@ == Seq::new(32768, |i: int| None::<Block>),
    {
        Chunk { position, contents: BlockGrid::new() }
    }

    /// The terrain of the chunk at `position`: each column is stone from the
    /// bottom of the chunk up to its top, and air above; a column whose
    /// terrain ends below the chunk is air.
    pub fn generate(position: IVec3, heights: &HeightMap) -> (chunk: Self)
        ensures
            chunk.position == position,
            is_terrain(chunk.contents@, heights@, position.y as int),
    {
        let mut chunk = Self::new(position);
        let stone = Block::new(Identifier::new(DEFAULT_NAMESPACE, "stone"));
        let base: i64 = (position.y as i64) * 32;
        let rise: i64 = if position.y < 0 {
            -(position.y as i64) * 32
        } else {
            (position.y as i64) * 32
        };
        let mut x: i16 = 0;
        while x < CHUNK_SIZE_I16
            invariant
                0 <= x <= 32,
                base == position.y * 32,
                rise == (if position.y < 0 {
                    -position.y
                } else {
                    position.y as int
                }) * 32,
                chunk.position == position,
                chunk.contents@.len() == 32768,
                stone.identifier@ == (DEFAULT_NAMESPACE@, "stone"@),
                forall|i: int|
                    0 <= i < 32768 ==> #[trigger] chunk.contents@[i] == (if cell_x(i) < x
                        && generated_solid(
                        heights@,
                        position.y as int,
                        cell_x(i),
                        cell_y(i),
                        cell_z(i),
                    ) {
                        Some(stone)
                    } else {
                        None
                    }),
            decreases 32 - x,
        {
            let mut z: i16 = 0;
            while z < CHUNK_SIZE_I16
                invariant
                    0 <= x < 32,
                    0 <= z <= 32,
                    base == position.y * 32,
                    rise == (if position.y < 0 {
                        -position.y
                    } else {
                        position.y as int
                    }) * 32,
                    chunk.position == position,
                    chunk.contents@.len() == 32768,
                    stone.identifier@ == (DEFAULT_NAMESPACE@, "stone"@),
                    forall|i: int|
                        0 <= i < 32768 ==> #[trigger] chunk.contents@[i] == (if (cell_x(i) < x || (
                        cell_x(i) == x && cell_z(i) < z)) && generated_solid(
                            heights@,
                            position.y as int,
                            cell_x(i),
                            cell_y(i),
                            cell_z(i),
                        ) {
                            Some(stone)
                        } else {
                            None
                        }),
                decreases 32 - z,
            {
                let height: i64 = heights.height(x, z) as i64;
                if height >= base {
                    let top: i64 = if height + rise < 31 {
                        height + rise
                    } else {
                        31
                    };
                    assert(top == column_top(height as int, position.y as int));
                    assert(0 <= top <= 31);
                    let done = chunk.contents.set_area(
                        I16Vec3::new(x, 0, z),
                        I16Vec3::new(x, top as i16, z),
                        &stone,
                    );
                    assert(done is Some);
                }
                z += 1;
            }
            x += 1;
        }
        chunk
    }

    pub fn to_block_coord(raw_coordinate: i32) -> (block_coord: i16)
        ensures
            block_coord == block_coord_of(raw_coordinate as int),
            0 <= block_coord < 32,
    {
        BlockGrid::to_block_coord(raw_coordinate)
    }

    pub fn to_block_coordinates(raw_coordinates: IVec3) -> (block: I16Vec3)
        ensures
            block.x == block_coord_of(raw_coordinates.x as int),
            block.y == block_coord_of(raw_coordinates.y as int),
            block.z == block_coord_of(raw_coordinates.z as int),
            in_chunk(block.x as int, block.y as int, block.z as int),
    {
        BlockGrid::to_block_coordinates(raw_coordinates)
    }

    /// The position of the cell at `index`, or `None` where the chunk has no
    /// such cell.
    pub fn to_block_coordinates_from_index(index: usize) -> (position: Option<I16Vec3>)
        ensures
            index < 32768 ==> position == Some(
                I16Vec3 {
                    x: cell_x(index as int) as i16,
                    y: cell_y(index as int) as i16,
                    z: cell_z(index as int) as i16,
                },
            ),
            index < 32768 ==> in_chunk(
                cell_x(index as int),
                cell_y(index as int),
                cell_z(index as int),
            ),
            index >= 32768 ==> position is None,
    {
        BlockGrid::to_block_coordinates_from_index(index)
    }

    /// The index of the cell at a position inside the chunk.
    pub fn to_index(position: I16Vec3) -> (index: usize)
        requires
            in_chunk(position.x as int, position.y as int, position.z as int),
        ensures
            index == cell_index(position.x as int, position.y as int, position.z as int),
            index < 32768,
    {
        (position.x as usize) + (position.y as usize) * CHUNK_SIZE_USIZE + (position.z as usize)
            * 1024
    }

    /// Fills the box from `start` to `end`, both included and both inside
    /// the chunk, with copies of `block`.
    pub fn set_area(&mut self, start: I16Vec3, end: I16Vec3, block: &Block)
        requires
            in_chunk(start.x as int, start.y as int, start.z as int),
            in_chunk(end.x as int, end.y as int, end.z as int),
        ensures
            final(self).position == old(self).position,
            final(self).contents@ == fill_area(old(self).contents@, start, end, *block),
    {
        let _ = self.contents.set_area(start, end, block);
    }
}

/// The cells that a stored chunk stands for: the stored cells in their
/// order, then air up to the full count.
pub open spec fn padded_cells(stored: Seq<Option<Block>>) -> Seq<Option<Block>> {
    Seq::new(
        32768,
        |i: int|
            if i < stored.len() {
                stored[i]
            } else {
                None
            },
    )
}

/// The stored form of a chunk's cells: the cells in index order. The chunk's
/// position is not part of it. A stored chunk may be short: the cells that
/// are missing at its end are air.
#[derive(Debug)]
pub struct SerializableChunkContents {
    pub cells: Vec<Option<Block>>,
}

impl SerializableChunkContents {
    /// The stored form of `grid`: all of its cells.
    pub fn from_grid(grid: &BlockGrid) -> (stored: Self)
        ensures
            stored.cells@ == grid@,
    {
        proof {
            use_type_invariant(grid);
        }
        let mut cells: Vec<Option<Block>> = Vec::new();
        let mut i: usize = 0;
        while i < CHUNK_BLOCK_COUNT
            invariant
                i <= CHUNK_BLOCK_COUNT,
                grid@.len() == 32768,
                cells@.len() == i,
                forall|j: int| 0 <= j < i ==> cells@[j] == grid@[j],
            decreases CHUNK_BLOCK_COUNT - i,
        {
            let cell = match &grid.blocks[i] {
                Some(block) => Some(block.clone()),
                None => None,
            };
            cells.push(cell);
            i += 1;
        }
        assert(cells@ =~= grid@);
        SerializableChunkContents { cells }
    }

    /// The grid that these stored cells stand for, or `None` where more
    /// cells are stored than a chunk has.
    pub fn into_grid(self) -> (grid: Option<BlockGrid>)
        ensures
            self.cells@.len() <= 32768 ==> grid is Some && grid->0@ == padded_cells(self.cells@),
            self.cells@.len() > 32768 ==> grid is None,
    {
        let ghost stored = self.cells@;
        let mut blocks = self.cells;
        if blocks.len() > CHUNK_BLOCK_COUNT {
            return None;
        }
        while blocks.len() < CHUNK_BLOCK_COUNT
            invariant
                stored.len() <= blocks@.len() <= 32768,
                forall|j: int| 0 <= j < stored.len() ==> blocks@[j] == stored[j],
                forall|j: int| stored.len() <= j < blocks@.len() ==> blocks@[j] == None::<Block>,
            decreases 32768 - blocks@.len(),
        {
            blocks.push(None);
        }
        assert(blocks@ =~= padded_cells(stored));
        Some(BlockGrid { blocks })
    }
}

/// True where there is a stored chunk and it holds no more cells than a
/// chunk has.
pub open spec fn can_be_read(stored: Option<SerializableChunkContents>) -> bool {
    stored is Some && stored->0.cells@.len() <= 32768
}

/// True where `chunk` is the chunk that loading gives for `position`: the
/// stored chunk where there is one that can be read, else the terrain.
pub open spec fn is_loaded_or_generated(
    chunk: Chunk,
    position: IVec3,
    stored: Option<SerializableChunkContents>,
    heights: Seq<i32>,
) -> bool {
    &&& chunk.position == position
    &&& can_be_read(stored) ==> chunk.contents@ == padded_cells(stored->0.cells@)
    &&& !can_be_read(stored) ==> is_terrain(chunk.contents@, heights, position.y as int)
}

impl Chunk {
    /// The chunk at `position` that `stored` stands for, or `None` where
    /// more cells are stored than a chunk has. The position is the one
    /// given here: none is stored.
    pub fn load(position: IVec3, stored: SerializableChunkContents) -> (chunk: Option<Self>)
        ensures
            stored.cells@.len() <= 32768 ==> chunk is Some && chunk->0.position == position
                && chunk->0.contents@ == padded_cells(stored.cells@),
            stored.cells@.len() > 32768 ==> chunk is None,
    {
        match stored.into_grid() {
            Some(contents) => Some(Chunk { position, contents }),
            None => None,
        }
    }

    /// The stored form of this chunk's cells.
    pub fn save(&self) -> (stored: SerializableChunkContents)
        ensures
            stored.cells@ == self.contents@,
    {
        SerializableChunkContents::from_grid(&self.contents)
    }

    /// The chunk at `position`: the stored one where there is one that can
    /// be read, and the generated terrain where there is none.
    pub fn load_or_generate(
        position: IVec3,
        stored: Option<SerializableChunkContents>,
        heights: &HeightMap,
    ) -> (chunk: Self)
        ensures
            is_loaded_or_generated(chunk, position, stored, heights@),
    {
        match stored {
            Some(cells) => match Self::load(position, cells) {
                Some(chunk) => chunk,
                None => Self::generate(position, heights),
            },
            None => Self::generate(position, heights),
        }
    }
}

/// A chunk that is stored and read again has the cells that it had, at the
/// position that the reader gives it.
pub proof fn lemma_store_and_load(cells: Seq<Option<Block>>)
    requires
        cells.len() == 32768,
    ensures
        padded_cells(cells) == cells,
{
    assert(padded_cells(cells) =~= cells);
}

/// A stored chunk that breaks off early reads as the chunk whose remaining
/// cells are air.
pub proof fn lemma_short_store(stored: Seq<Option<Block>>, i: int)
    requires
        stored.len() <= i < 32768,
    ensures
        padded_cells(stored)[i] is None,
{
}

} // verus!
