//! The chunk grid: the chunks that are loaded, by their position.

use crate::block::Block;
use crate::chunk::{
    block_coord_of, cell_index, chunk_coord_of, fill_area, in_box, in_chunk, is_terrain,
    BlockGrid, Chunk, HeightMap, CHUNK_SIZE_I32,
};
use crate::coord_map::CoordMap;
use crate::math::{I16Vec3, IVec3};
use vstd::prelude::*;

verus! {

/// True where `v` is the value of some `i32`.
pub open spec fn fits_i32(v: int) -> bool {
    -0x8000_0000 <= v <= 0x7fff_ffff
}

/// The block at the world position `(x, y, z)`: the cell of the chunk that
/// holds the position, and `None` where that chunk is not loaded.
pub open spec fn block_at(chunks: Map<IVec3, Chunk>, x: int, y: int, z: int) -> Option<Block> {
    let cx = chunk_coord_of(x);
    let cy = chunk_coord_of(y);
    let cz = chunk_coord_of(z);
    let chunk = IVec3 { x: cx as i32, y: cy as i32, z: cz as i32 };
    if fits_i32(cx) && fits_i32(cy) && fits_i32(cz) && chunks.contains_key(chunk) {
        chunks[chunk].contents@[cell_index(block_coord_of(x), block_coord_of(y), block_coord_of(z))]
    } else {
        None
    }
}

/// The position of the chunk that holds the world position `p`.
pub open spec fn chunk_position_of(p: IVec3) -> IVec3 {
    IVec3 {
        x: chunk_coord_of(p.x as int) as i32,
        y: chunk_coord_of(p.y as int) as i32,
        z: chunk_coord_of(p.z as int) as i32,
    }
}

/// The index, inside its chunk, of the cell at the world position `p`.
pub open spec fn cell_index_of(p: IVec3) -> int {
    cell_index(block_coord_of(p.x as int), block_coord_of(p.y as int), block_coord_of(p.z as int))
}

/// True where `after` is `before` with the cell at the world position `p`
/// replaced by `cell`: the same chunks at the same positions, and no other
/// cell changed.
pub open spec fn cell_replaced(
    before: Map<IVec3, Chunk>,
    after: Map<IVec3, Chunk>,
    p: IVec3,
    cell: Option<Block>,
) -> bool {
    let c = chunk_position_of(p);
    &&& after.dom() =~= before.dom()
    &&& after[c].position == before[c].position
    &&& after[c].contents@ == before[c].contents@.update(cell_index_of(p), cell)
    &&& forall|other: IVec3|
        other != c && before.contains_key(other) ==> #[trigger] after[other] == before[other]
}

/// True where the chunk position `c` lies in the box of chunks that holds the
/// world positions from `start` to `end`.
pub open spec fn in_chunk_box(start: IVec3, end: IVec3, c: IVec3) -> bool {
    &&& chunk_coord_of(start.x as int) <= c.x <= chunk_coord_of(end.x as int)
    &&& chunk_coord_of(start.y as int) <= c.y <= chunk_coord_of(end.y as int)
    &&& chunk_coord_of(start.z as int) <= c.z <= chunk_coord_of(end.z as int)
}

/// The order in which an area is filled chunk by chunk: by `x`, then by `y`,
/// then by `z`. True where `c` comes before `(x, y, z)`.
pub open spec fn comes_before(c: IVec3, x: int, y: int, z: int) -> bool {
    c.x < x || (c.x == x && (c.y < y || (c.y == y && c.z < z)))
}

/// True where filling the area from `start` to `end` gets to the chunk at
/// `c`: `c` lies in the box of chunks, and it and every chunk of the box that
/// comes before it are loaded.
pub open spec fn area_reaches(chunks: Map<IVec3, Chunk>, start: IVec3, end: IVec3, c: IVec3) -> bool {
    &&& in_chunk_box(start, end, c)
    &&& forall|d: IVec3|
        #![trigger chunks.contains_key(d)]
        in_chunk_box(start, end, d) && (d == c || comes_before(d, c.x as int, c.y as int, c.z as int))
            ==> chunks.contains_key(d)
}

/// True where every chunk of the box of chunks from `start` to `end` is
/// loaded.
pub open spec fn area_loaded(chunks: Map<IVec3, Chunk>, start: IVec3, end: IVec3) -> bool {
    forall|d: IVec3|
        #![trigger chunks.contains_key(d)]
        in_chunk_box(start, end, d) ==> chunks.contains_key(d)
}

/// The corner, inside the chunk at `c`, at which the part of the area that
/// lies in that chunk starts.
pub open spec fn local_start(start: IVec3, c: IVec3) -> I16Vec3 {
    I16Vec3 {
        x: if chunk_coord_of(start.x as int) < c.x {
            0
        } else {
            block_coord_of(start.x as int) as i16
        },
        y: if chunk_coord_of(start.y as int) < c.y {
            0
        } else {
            block_coord_of(start.y as int) as i16
        },
        z: if chunk_coord_of(start.z as int) < c.z {
            0
        } else {
            block_coord_of(start.z as int) as i16
        },
    }
}

/// The corner, inside the chunk at `c`, at which the part of the area that
/// lies in that chunk ends.
pub open spec fn local_end(end: IVec3, c: IVec3) -> I16Vec3 {
    I16Vec3 {
        x: if chunk_coord_of(end.x as int) > c.x {
            31
        } else {
            block_coord_of(end.x as int) as i16
        },
        y: if chunk_coord_of(end.y as int) > c.y {
            31
        } else {
            block_coord_of(end.y as int) as i16
        },
        z: if chunk_coord_of(end.z as int) > c.z {
            31
        } else {
            block_coord_of(end.z as int) as i16
        },
    }
}

/// Inside a chunk of the box, the part between the local corners is the
/// part of the chunk that lies in the area: a cell is in it where its world
/// position lies between `start` and `end` on every axis.
pub proof fn lemma_local_part(start: IVec3, end: IVec3, c: IVec3, x: int, y: int, z: int)
    requires
        in_chunk_box(start, end, c),
        in_chunk(x, y, z),
    ensures
        in_box(local_start(start, c), local_end(end, c), x, y, z) <==> (start.x <= c.x * 32 + x
            <= end.x && start.y <= c.y * 32 + y <= end.y && start.z <= c.z * 32 + z <= end.z),
{
}

/// True where `after` is `before` with the area from `start` to `end` filled
/// with `block` as far as filling got: the same chunks at the same
/// positions, in each chunk that was reached its part of the area filled,
/// and nothing else changed.
pub open spec fn area_filled(
    before: Map<IVec3, Chunk>,
    after: Map<IVec3, Chunk>,
    start: IVec3,
    end: IVec3,
    block: Block,
) -> bool {
    &&& after.dom() =~= before.dom()
    &&& forall|c: IVec3|
        before.contains_key(c) ==> (#[trigger] after[c]).position == before[c].position
            && after[c].contents@ == (if area_reaches(before, start, end, c) {
            fill_area(before[c].contents@, local_start(start, c), local_end(end, c), block)
        } else {
            before[c].contents@
        })
}

/// True where `after` is `before` with the part from `start` to `end` of the
/// chunk at `position` filled with `block`, and nothing else changed.
pub open spec fn part_filled(
    before: Map<IVec3, Chunk>,
    after: Map<IVec3, Chunk>,
    position: IVec3,
    start: I16Vec3,
    end: I16Vec3,
    block: Block,
) -> bool {
    &&& after.dom() =~= before.dom()
    &&& after[position].position == before[position].position
    &&& after[position].contents@ == fill_area(before[position].contents@, start, end, block)
    &&& forall|other: IVec3|
        other != position && before.contains_key(other) ==> #[trigger] after[other]
            == before[other]
}

/// The state while an area is filled, before the chunk at `(x, y, z)` gets
/// its turn: the chunks of the box before it are loaded and filled, and
/// nothing else changed.
pub open spec fn area_filled_before(
    before: Map<IVec3, Chunk>,
    now: Map<IVec3, Chunk>,
    start: IVec3,
    end: IVec3,
    block: Block,
    x: int,
    y: int,
    z: int,
) -> bool {
    &&& now.dom() == before.dom()
    &&& forall|c: IVec3|
        #![trigger before.contains_key(c)]
        in_chunk_box(start, end, c) && comes_before(c, x, y, z) ==> before.contains_key(c)
    &&& forall|c: IVec3|
        before.contains_key(c) ==> (#[trigger] now[c]).position == before[c].position
            && now[c].contents@ == (if in_chunk_box(start, end, c) && comes_before(c, x, y, z) {
            fill_area(before[c].contents@, local_start(start, c), local_end(end, c), block)
        } else {
            before[c].contents@
        })
}

/// The loaded chunks, by their position on the chunk grid. There is at most
/// one chunk for a position. The grid holds the cells of each chunk; the
/// position of a chunk is the place where it stands on the grid.
pub struct ChunkGrid {
    chunks: CoordMap<BlockGrid>,
}

impl View for ChunkGrid {
    type V = Map<IVec3, Chunk>;

    closed spec fn view(&self) -> Map<IVec3, Chunk> {
        Map::new(
            |p: IVec3| self.chunks@.contains_key(p),
            |p: IVec3| Chunk { position: p, contents: self.chunks@[p] },
        )
    }
}

/// Every chunk of a grid stands at the position that it carries.
pub proof fn lemma_chunks_stand_at_their_position(grid: ChunkGrid, p: IVec3)
    requires
        grid@.contains_key(p),
    ensures
        grid@[p].position == p,
{
}

/// The quotient of `v` by the chunk's edge, rounded towards negative
/// infinity.
fn floor_div(v: i64) -> (q: i64)
    ensures
        q == chunk_coord_of(v as int),
{
    let quotient: i64 = v / 32;
    if v % 32 < 0 {
        quotient - 1
    } else {
        quotient
    }
}

/// The remainder of `v` by the chunk's edge, never negative.
fn floor_mod(v: i64) -> (r: i16)
    ensures
        r == block_coord_of(v as int),
        0 <= r < 32,
{
    let remainder: i64 = v % 32;
    if remainder < 0 {
        (remainder + 32) as i16
    } else {
        remainder as i16
    }
}

impl ChunkGrid {
    /// A grid with no chunk loaded: it holds no chunk and hands out no
    /// position.
    pub fn new() -> (grid: Self)
        ensures
            grid@ == Map::<IVec3, Chunk>::empty(),
            grid.position_seq() == Seq::<IVec3>::empty(),
    {
        let grid = ChunkGrid { chunks: CoordMap::new() };
        assert(grid@ =~= Map::<IVec3, Chunk>::empty());
        grid
    }

    /// Puts `chunk` on the grid, at its position. The result is the chunk
    /// that stood there before.
    pub fn insert(&mut self, chunk: Chunk) -> (previous: Option<Chunk>)
        ensures
            final(self)@ == old(self)@.insert(chunk.position, chunk),
            previous == (if old(self)@.contains_key(chunk.position) {
                Some(old(self)@[chunk.position])
            } else {
                None
            }),
    {
        let position = chunk.position;
        let previous = match self.chunks.insert(position, chunk.contents) {
            Some(contents) => Some(Chunk { position, contents }),
            None => None,
        };
        assert(self@ =~= old(self)@.insert(chunk.position, chunk));
        previous
    }

    /// Takes the chunk at `position` off the grid.
    pub fn remove(&mut self, position: IVec3) -> (removed: Option<Chunk>)
        ensures
            final(self)@ == old(self)@.remove(position),
            removed == (if old(self)@.contains_key(position) {
                Some(old(self)@[position])
            } else {
                None
            }),
            removed matches Some(chunk) ==> chunk.position == position,
    {
        let removed = match self.chunks.remove(position) {
            Some(contents) => Some(Chunk { position, contents }),
            None => None,
        };
        assert(self@ =~= old(self)@.remove(position));
        removed
    }

    /// The cells of the chunk at `position`, if one is loaded there.
    pub fn get(&self, position: IVec3) -> (contents: Option<&BlockGrid>)
        ensures
            match contents {
                Some(cells) => self@.contains_key(position) && self@[position].contents == *cells,
                None => !self@.contains_key(position),
            },
    {
        self.chunks.get(position)
    }

    pub fn contains_key(&self, position: IVec3) -> (found: bool)
        ensures
            found == self@.contains_key(position),
    {
        self.chunks.contains_key(position)
    }

    /// The positions of the loaded chunks, each once, in the order in which
    /// `positions` hands them out.
    pub closed spec fn position_seq(&self) -> Seq<IVec3> {
        self.chunks.key_seq()
    }

    /// The number of loaded chunks.
    pub fn len(&self) -> (n: usize)
        ensures
            n == self@.len(),
            n == self.position_seq().len(),
            self@.dom().finite(),
    {
        let n = self.chunks.len();
        assert(self@.dom() =~= self.chunks@.dom());
        n
    }

    /// The positions of the loaded chunks, each once.
    pub fn positions(&self) -> (positions: Vec<IVec3>)
        ensures
            positions@ == self.position_seq(),
            positions@.no_duplicates(),
            forall|p: IVec3| positions@.contains(p) <==> self@.contains_key(p),
    {
        self.chunks.keys()
    }

    /// The block at the world position `(x, y, z)`; `None` for air, where
    /// the chunk that holds the position is not loaded, and where no chunk
    /// can hold it.
    pub fn get_block_wide(&self, x: i64, y: i64, z: i64) -> (cell: Option<&Block>)
        ensures
            match cell {
                Some(block) => block_at(self@, x as int, y as int, z as int) == Some(*block),
                None => block_at(self@, x as int, y as int, z as int) is None,
            },
    {
        let cx = floor_div(x);
        let cy = floor_div(y);
        let cz = floor_div(z);
        if cx < -0x8000_0000 || cx > 0x7fff_ffff || cy < -0x8000_0000 || cy > 0x7fff_ffff || cz
            < -0x8000_0000 || cz > 0x7fff_ffff {
            return None;
        }
        match self.chunks.get(IVec3::new(cx as i32, cy as i32, cz as i32)) {
            Some(contents) => {
                proof {
                    use_type_invariant(contents);
                }
                contents.get(I16Vec3::new(floor_mod(x), floor_mod(y), floor_mod(z)))
            },
            None => None,
        }
    }

    pub fn to_chunk_coord(raw_coordinate: i32) -> (chunk_coord: i32)
        ensures
            chunk_coord == chunk_coord_of(raw_coordinate as int),
    {
        let quotient: i32 = raw_coordinate / CHUNK_SIZE_I32;
        if raw_coordinate % CHUNK_SIZE_I32 < 0 {
            quotient - 1
        } else {
            quotient
        }
    }

    pub fn to_chunk_coordinates(raw_coordinates: IVec3) -> (chunk: IVec3)
        ensures
            chunk == chunk_position_of(raw_coordinates),
    {
        IVec3::new(
            Self::to_chunk_coord(raw_coordinates.x),
            Self::to_chunk_coord(raw_coordinates.y),
            Self::to_chunk_coord(raw_coordinates.z),
        )
    }

    pub fn to_chunk_coordinates_from_ivec3(raw_coordinates: IVec3) -> (chunk: IVec3)
        ensures
            chunk == chunk_position_of(raw_coordinates),
    {
        Self::to_chunk_coordinates(raw_coordinates)
    }

    /// The block at the world position `position`; `None` for air and where
    /// the chunk that holds the position is not loaded.
    pub fn get_block(&self, position: IVec3) -> (cell: Option<&Block>)
        ensures
            match cell {
                Some(block) => block_at(
                    self@,
                    position.x as int,
                    position.y as int,
                    position.z as int,
                ) == Some(*block),
                None => block_at(self@, position.x as int, position.y as int, position.z as int)
                    is None,
            },
    {
        match self.chunks.get(Self::to_chunk_coordinates(position)) {
            Some(contents) => {
                proof {
                    use_type_invariant(contents);
                }
                contents.get(BlockGrid::to_block_coordinates(position))
            },
            None => None,
        }
    }

    /// Puts `block` at the world position `position`, or clears the cell
    /// where `block` is `None`. Where the chunk that holds the position is
    /// not loaded nothing changes and the result is `None`: no chunk is made.
    pub fn set_block(&mut self, position: IVec3, block: Option<Block>) -> (done: Option<()>)
        ensures
            old(self)@.contains_key(chunk_position_of(position)) ==> done is Some && cell_replaced(
                old(self)@,
                final(self)@,
                position,
                block,
            ),
            !old(self)@.contains_key(chunk_position_of(position)) ==> done is None && final(self)@
                == old(self)@,
    {
        match self.chunks.get_mut(Self::to_chunk_coordinates(position)) {
            Some(contents) => {
                let done = contents.set_cell(BlockGrid::to_block_coordinates(position), block);
                assert(self@.dom() =~= old(self)@.dom());
                done
            },
            None => {
                assert(self@ =~= old(self)@);
                None
            },
        }
    }

    /// The block at the world position `position`, to be changed in place;
    /// `None` for air and where the chunk that holds the position is not
    /// loaded.
    pub fn get_block_mut(&mut self, position: IVec3) -> (cell: Option<&mut Block>)
        ensures
            match cell {
                Some(block) => block_at(
                    old(self)@,
                    position.x as int,
                    position.y as int,
                    position.z as int,
                ) == Some(*block) && cell_replaced(
                    old(self)@,
                    final(self)@,
                    position,
                    Some(*final(block)),
                ),
                None => block_at(
                    old(self)@,
                    position.x as int,
                    position.y as int,
                    position.z as int,
                ) is None && final(self)@ == old(self)@,
            },
    {
        if self.get_block(position).is_none() {
            return None;
        }
        match self.chunks.get_mut(Self::to_chunk_coordinates(position)) {
            Some(contents) => {
                proof {
                    use_type_invariant(&*contents);
                }
                contents.get_mut(BlockGrid::to_block_coordinates(position))
            },
            None => None,
        }
    }

    /// Fills the part from `start` to `end` of the chunk at `position` with
    /// copies of `block`. Where no chunk is loaded there nothing changes and
    /// the result is `None`.
    fn fill_chunk_part(&mut self, position: IVec3, start: I16Vec3, end: I16Vec3, block: &Block) -> (done:
        Option<()>)
        requires
            in_chunk(start.x as int, start.y as int, start.z as int),
            in_chunk(end.x as int, end.y as int, end.z as int),
        ensures
            old(self)@.contains_key(position) ==> done is Some && part_filled(
                old(self)@,
                final(self)@,
                position,
                start,
                end,
                *block,
            ),
            !old(self)@.contains_key(position) ==> done is None && final(self)@ == old(self)@,
    {
        match self.chunks.get_mut(position) {
            Some(contents) => {
                let done = contents.set_area(start, end, block);
                assert(self@.dom() =~= old(self)@.dom());
                done
            },
            None => {
                assert(self@ =~= old(self)@);
                None
            },
        }
    }

    /// Fills the world positions from `start` to `end`, both included, with
    /// copies of `block`, chunk by chunk. Where a chunk of the area is not
    /// loaded, filling stops there and the result is `None`: the chunks that
    /// had their turn before stay filled.
    pub fn set_blocks_in_area(&mut self, start: IVec3, end: IVec3, block: Block) -> (done: Option<
        (),
    >)
        ensures
            area_filled(old(self)@, final(self)@, start, end, block),
            done is Some <==> area_loaded(old(self)@, start, end),
    {
        let chunk_start = Self::to_chunk_coordinates(start);
        let chunk_end = Self::to_chunk_coordinates(end);
        let ghost before = self@;
        let mut x: i32 = chunk_start.x;
        while x <= chunk_end.x
            invariant
                before == old(self)@,
                chunk_start == chunk_position_of(start),
                chunk_end == chunk_position_of(end),
                chunk_start.x <= x,
                x <= chunk_end.x + 1 || chunk_start.x > chunk_end.x,
                area_filled_before(
                    before,
                    self@,
                    start,
                    end,
                    block,
                    x as int,
                    chunk_start.y as int,
                    chunk_start.z as int,
                ),
            decreases chunk_end.x + 1 - x,
        {
            let mut y: i32 = chunk_start.y;
            while y <= chunk_end.y
                invariant
                    before == old(self)@,
                    chunk_start == chunk_position_of(start),
                    chunk_end == chunk_position_of(end),
                    chunk_start.x <= x <= chunk_end.x,
                    chunk_start.y <= y,
                    y <= chunk_end.y + 1 || chunk_start.y > chunk_end.y,
                    area_filled_before(
                        before,
                        self@,
                        start,
                        end,
                        block,
                        x as int,
                        y as int,
                        chunk_start.z as int,
                    ),
                decreases chunk_end.y + 1 - y,
            {
                let mut z: i32 = chunk_start.z;
                while z <= chunk_end.z
                    invariant
                        before == old(self)@,
                        chunk_start == chunk_position_of(start),
                        chunk_end == chunk_position_of(end),
                        chunk_start.x <= x <= chunk_end.x,
                        chunk_start.y <= y <= chunk_end.y,
                        chunk_start.z <= z,
                        z <= chunk_end.z + 1 || chunk_start.z > chunk_end.z,
                        area_filled_before(
                            before,
                            self@,
                            start,
                            end,
                            block,
                            x as int,
                            y as int,
                            z as int,
                        ),
                    decreases chunk_end.z + 1 - z,
                {
                    let position = IVec3::new(x, y, z);
                    let part_start = I16Vec3::new(
                        if chunk_start.x < x {
                            0
                        } else {
                            BlockGrid::to_block_coord(start.x)
                        },
                        if chunk_start.y < y {
                            0
                        } else {
                            BlockGrid::to_block_coord(start.y)
                        },
                        if chunk_start.z < z {
                            0
                        } else {
                            BlockGrid::to_block_coord(start.z)
                        },
                    );
                    let part_end = I16Vec3::new(
                        if chunk_end.x > x {
                            31
                        } else {
                            BlockGrid::to_block_coord(end.x)
                        },
                        if chunk_end.y > y {
                            31
                        } else {
                            BlockGrid::to_block_coord(end.y)
                        },
                        if chunk_end.z > z {
                            31
                        } else {
                            BlockGrid::to_block_coord(end.z)
                        },
                    );
                    assert(part_start == local_start(start, position));
                    assert(part_end == local_end(end, position));
                    assert(in_chunk_box(start, end, position));
                    let ghost now = self@;
                    if self.fill_chunk_part(position, part_start, part_end, &block).is_none() {
                        proof {
                            assert(!before.contains_key(position));
                            assert forall|c: IVec3| before.contains_key(c) implies (area_reaches(
                                before,
                                start,
                                end,
                                c,
                            ) <==> in_chunk_box(start, end, c) && comes_before(
                                c,
                                x as int,
                                y as int,
                                z as int,
                            )) by {
                                if in_chunk_box(start, end, c) && !comes_before(
                                    c,
                                    x as int,
                                    y as int,
                                    z as int,
                                ) {
                                    assert(comes_before(
                                        position,
                                        c.x as int,
                                        c.y as int,
                                        c.z as int,
                                    ));
                                }
                            }
                        }
                        return None;
                    }
                    proof {
                        assert forall|c: IVec3| before.contains_key(c) implies (#[trigger] self@[c]).position
                            == before[c].position && self@[c].contents@ == (if in_chunk_box(
                            start,
                            end,
                            c,
                        ) && comes_before(c, x as int, y as int, z + 1) {
                            fill_area(
                                before[c].contents@,
                                local_start(start, c),
                                local_end(end, c),
                                block,
                            )
                        } else {
                            before[c].contents@
                        }) by {
                            if c != position {
                                assert(self@[c] == now[c]);
                            }
                        }
                    }
                    z += 1;
                }
                y += 1;
            }
            x += 1;
        }
        proof {
            assert forall|c: IVec3| before.contains_key(c) implies (area_reaches(
                before,
                start,
                end,
                c,
            ) <==> in_chunk_box(start, end, c) && comes_before(
                c,
                x as int,
                chunk_start.y as int,
                chunk_start.z as int,
            )) by {}
            assert forall|d: IVec3| in_chunk_box(start, end, d) implies before.contains_key(d) by {
                assert(comes_before(d, x as int, chunk_start.y as int, chunk_start.z as int));
            }
        }
        Some(())
    }

    /// The terrain of the chunk at `position`.
    pub fn generate_chunk(position: IVec3, heights: &HeightMap) -> (chunk: Chunk)
        ensures
            chunk.position == position,
            is_terrain(chunk.contents@, heights@, position.y as int),
    {
        Chunk::generate(position, heights)
    }
}

} // verus!
