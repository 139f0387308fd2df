//! The level: which chunks are loaded, and the bookkeeping that carries each
//! chunk from generation through meshing to eviction as the viewpoint moves.
//!
//! The level is a state machine that decides and never waits. The host asks
//! it once per tick what to start (generation, mesh builds, saves), runs
//! that work wherever it likes, and reports each result back. A result that
//! comes back after the chunk has moved on is dropped.
//!
//! Eviction waits for work in flight: a chunk that is out of range while its
//! mesh is being built stays loaded until the build is done.

use crate::block::Block;
use crate::atlas::AtlasManager;
use crate::chunk::{is_loaded_or_generated, Chunk, HeightMap, SerializableChunkContents};
use crate::coord_map::{among_first, lemma_among_first_ends, lemma_among_first_step, CoordMap};
use crate::grid::{cell_replaced, chunk_position_of, comes_before, ChunkGrid};
use crate::math::IVec3;
use crate::mesh::{build_mesh, chunk_quads, ChunkMesh, Quad};
use vstd::prelude::*;

verus! {

/// Where a position stands on its way into the grid and out of it again.
#[derive(Debug)]
pub enum ChunkGenerationState {
    /// In range and wanted; no worker has taken it yet.
    Uninitialized,
    /// A worker is loading or generating the chunk.
    Generating,
    /// The chunk is made and waits to be put on the grid.
    Generated(Chunk),
    /// The chunk was evicted and saved; what is left of it can be cleared.
    Removed,
}

/// Where the mesh of a loaded chunk stands.
#[derive(Debug)]
pub enum ChunkMeshState {
    /// A mesh is wanted; no worker has taken it yet.
    Unmeshed,
    /// A worker is building the mesh.
    MeshBuilding,
    /// The mesh is built and waits to be shown; `None` where the chunk has
    /// no side that can be seen.
    MeshReady(Option<ChunkMesh>),
}

/// What the host has to do to what it shows of a chunk.
#[derive(Debug)]
pub enum MeshEvent {
    /// Nothing is shown of the chunk yet: show it, with this mesh.
    Create { position: IVec3, mesh: ChunkMesh },
    /// The chunk is shown: replace its mesh by this one.
    Update { position: IVec3, mesh: ChunkMesh },
    /// The chunk is shown and has no side left that can be seen: take its
    /// mesh away.
    Clear { position: IVec3 },
}

/// What names a level and seeds its terrain.
#[derive(Debug)]
pub struct LevelProperties {
    pub id: String,
    pub seed: u32,
}

/// The state of a level as contracts see it.
#[verifier::ext_equal]
pub struct LevelView {
    /// The loaded chunks.
    pub grid: Map<IVec3, Chunk>,
    /// The positions on their way into the grid or out of it.
    pub generation: Map<IVec3, ChunkGenerationState>,
    /// The positions whose chunk was evicted and is not cleared yet.
    pub removed: Set<IVec3>,
    /// The positions whose mesh has to be built again.
    pub remesh: Set<IVec3>,
    /// The positions whose mesh is wanted, being built, or ready.
    pub meshing: Map<IVec3, ChunkMeshState>,
    /// The positions of which the host shows something.
    pub entities: Set<IVec3>,
}

/// A level.
pub struct Level {
    level_properties: LevelProperties,
    chunk_grid: ChunkGrid,
    chunk_states: CoordMap<ChunkGenerationState>,
    removed: CoordMap<()>,
    remesh: CoordMap<()>,
    mesh_states: CoordMap<ChunkMeshState>,
    chunk_entities: CoordMap<()>,
}

impl View for Level {
    type V = LevelView;

    closed spec fn view(&self) -> LevelView {
        LevelView {
            grid: self.chunk_grid@,
            generation: self.chunk_states@,
            removed: self.removed@.dom(),
            remesh: self.remesh@.dom(),
            meshing: self.mesh_states@,
            entities: self.chunk_entities@.dom(),
        }
    }
}

/// True where `p` is no further from `camera` than the render distance: on
/// the `x` and `z` axes `horizontal` chunks, on the `y` axis `vertical`.
pub open spec fn in_range(camera: IVec3, horizontal: int, vertical: int, p: IVec3) -> bool {
    &&& -horizontal <= p.x - camera.x <= horizontal
    &&& -vertical <= p.y - camera.y <= vertical
    &&& -horizontal <= p.z - camera.z <= horizontal
}

/// The chunk with the cells of `chunk`, at `position`.
pub open spec fn chunk_at(position: IVec3, chunk: Chunk) -> Chunk {
    Chunk { position, contents: chunk.contents }
}

/// A worker takes the generation of the chunk at `p`: it gets it where the
/// position is marked and no worker has taken it yet.
pub open spec fn generation_begun(v: LevelView, p: IVec3) -> (LevelView, bool) {
    if v.generation.contains_key(p) && v.generation[p] is Uninitialized {
        (LevelView { generation: v.generation.insert(p, ChunkGenerationState::Generating), ..v }, true)
    } else {
        (v, false)
    }
}

/// A worker hands in the chunk that it made for `p`: it is taken where the
/// position is still being generated, and dropped where it is not.
pub open spec fn generation_completed(v: LevelView, p: IVec3, chunk: Chunk) -> (LevelView, bool) {
    if v.generation.contains_key(p) && v.generation[p] is Generating {
        (
            LevelView {
                generation: v.generation.insert(
                    p,
                    ChunkGenerationState::Generated(chunk_at(p, chunk)),
                ),
                ..v
            },
            true,
        )
    } else {
        (v, false)
    }
}

/// A worker takes the mesh build of the chunk at `p`: it gets it where a
/// mesh is wanted and no worker has taken it yet.
pub open spec fn mesh_begun(v: LevelView, p: IVec3) -> (LevelView, bool) {
    if v.meshing.contains_key(p) && v.meshing[p] is Unmeshed {
        (LevelView { meshing: v.meshing.insert(p, ChunkMeshState::MeshBuilding), ..v }, true)
    } else {
        (v, false)
    }
}

/// A worker hands in the mesh that it built for `p`: it is taken where the
/// mesh is still being built, and dropped where it is not.
pub open spec fn mesh_completed(v: LevelView, p: IVec3, mesh: Option<ChunkMesh>) -> (
    LevelView,
    bool,
) {
    if v.meshing.contains_key(p) && v.meshing[p] is MeshBuilding {
        (LevelView { meshing: v.meshing.insert(p, ChunkMeshState::MeshReady(mesh)), ..v }, true)
    } else {
        (v, false)
    }
}

/// A worker gives up the mesh build of the chunk at `p`, whose chunk it did
/// not find: the build is over, with no mesh.
pub open spec fn mesh_abandoned(v: LevelView, p: IVec3) -> (LevelView, bool) {
    if v.meshing.contains_key(p) && v.meshing[p] is MeshBuilding {
        (LevelView { meshing: v.meshing.remove(p), ..v }, true)
    } else {
        (v, false)
    }
}

impl Level {
    /// A level with nothing loaded.
    pub fn new(id: String, seed: u32) -> (level: Self)
        ensures
            level@.grid == Map::<IVec3, Chunk>::empty(),
            level@.generation == Map::<IVec3, ChunkGenerationState>::empty(),
            level@.removed == Set::<IVec3>::empty(),
            level@.remesh == Set::<IVec3>::empty(),
            level@.meshing == Map::<IVec3, ChunkMeshState>::empty(),
            level@.entities == Set::<IVec3>::empty(),
            level.properties().id == id,
            level.properties().seed == seed,
    {
        let level = Level {
            level_properties: LevelProperties { id, seed },
            chunk_grid: ChunkGrid::new(),
            chunk_states: CoordMap::new(),
            removed: CoordMap::new(),
            remesh: CoordMap::new(),
            mesh_states: CoordMap::new(),
            chunk_entities: CoordMap::new(),
        };
        assert(level@.removed =~= Set::<IVec3>::empty());
        assert(level@.remesh =~= Set::<IVec3>::empty());
        assert(level@.entities =~= Set::<IVec3>::empty());
        level
    }

    /// The name and the seed of the level.
    pub closed spec fn properties(&self) -> LevelProperties {
        self.level_properties
    }

    /// The name and the seed of the level.
    pub fn level_properties(&self) -> (properties: &LevelProperties)
        ensures
            *properties == self.properties(),
    {
        &self.level_properties
    }

    /// The loaded chunks.
    pub fn get_chunk_grid(&self) -> (grid: &ChunkGrid)
        ensures
            grid@ == self@.grid,
    {
        &self.chunk_grid
    }

    /// Where the position `p` stands on its way into the grid or out of it.
    pub fn generation_state(&self, p: IVec3) -> (state: Option<&ChunkGenerationState>)
        ensures
            match state {
                Some(s) => self@.generation.contains_key(p) && self@.generation[p] == *s,
                None => !self@.generation.contains_key(p),
            },
    {
        self.chunk_states.get(p)
    }

    /// Where the mesh of the chunk at `p` stands.
    pub fn mesh_state(&self, p: IVec3) -> (state: Option<&ChunkMeshState>)
        ensures
            match state {
                Some(s) => self@.meshing.contains_key(p) && self@.meshing[p] == *s,
                None => !self@.meshing.contains_key(p),
            },
    {
        self.mesh_states.get(p)
    }

    /// Whether the chunk at `p` was evicted and is not cleared yet.
    pub fn is_removed(&self, p: IVec3) -> (removed: bool)
        ensures
            removed == self@.removed.contains(p),
    {
        self.removed.contains_key(p)
    }

    /// Whether the mesh of the chunk at `p` has to be built again.
    pub fn is_queued_for_remesh(&self, p: IVec3) -> (queued: bool)
        ensures
            queued == self@.remesh.contains(p),
    {
        self.remesh.contains_key(p)
    }

    /// Whether the host shows something of the chunk at `p`.
    pub fn has_entity(&self, p: IVec3) -> (shown: bool)
        ensures
            shown == self@.entities.contains(p),
    {
        self.chunk_entities.contains_key(p)
    }

    /// A worker takes the generation of the chunk at `position`. The result
    /// says whether it got it: where it did not, it has nothing to do.
    pub fn begin_generation(&mut self, position: IVec3) -> (begun: bool)
        ensures
            final(self)@ == generation_begun(old(self)@, position).0,
            begun == generation_begun(old(self)@, position).1,
            final(self).properties() == old(self).properties(),
    {
        let free = match self.chunk_states.get(position) {
            Some(ChunkGenerationState::Uninitialized) => true,
            _ => false,
        };
        if free {
            let _ = self.chunk_states.insert(position, ChunkGenerationState::Generating);
        }
        free
    }

    /// A worker hands in the chunk that it made for `position`. The chunk
    /// gets that position. The result says whether the chunk was taken: it
    /// is dropped where the position is no longer being generated.
    pub fn complete_generation(&mut self, position: IVec3, chunk: Chunk) -> (taken: bool)
        ensures
            final(self)@ == generation_completed(old(self)@, position, chunk).0,
            taken == generation_completed(old(self)@, position, chunk).1,
            final(self).properties() == old(self).properties(),
    {
        let running = match self.chunk_states.get(position) {
            Some(ChunkGenerationState::Generating) => true,
            _ => false,
        };
        if running {
            let stamped = Chunk { position, contents: chunk.contents };
            let _ = self.chunk_states.insert(position, ChunkGenerationState::Generated(stamped));
        }
        running
    }

    /// A worker takes the mesh build of the chunk at `position`. The result
    /// says whether it got it: where it did not, it has nothing to do.
    pub fn begin_mesh(&mut self, position: IVec3) -> (begun: bool)
        ensures
            final(self)@ == mesh_begun(old(self)@, position).0,
            begun == mesh_begun(old(self)@, position).1,
            final(self).properties() == old(self).properties(),
    {
        let free = match self.mesh_states.get(position) {
            Some(ChunkMeshState::Unmeshed) => true,
            _ => false,
        };
        if free {
            let _ = self.mesh_states.insert(position, ChunkMeshState::MeshBuilding);
        }
        free
    }

    /// A worker hands in the mesh that it built for the chunk at `position`.
    /// The result says whether the mesh was taken: it is dropped where the
    /// mesh is no longer being built.
    pub fn complete_mesh(&mut self, position: IVec3, mesh: Option<ChunkMesh>) -> (taken: bool)
        ensures
            final(self)@ == mesh_completed(old(self)@, position, mesh).0,
            taken == mesh_completed(old(self)@, position, mesh).1,
            final(self).properties() == old(self).properties(),
    {
        let running = match self.mesh_states.get(position) {
            Some(ChunkMeshState::MeshBuilding) => true,
            _ => false,
        };
        if running {
            let _ = self.mesh_states.insert(position, ChunkMeshState::MeshReady(mesh));
        }
        running
    }

    /// A worker gives up the mesh build of the chunk at `position`, because
    /// the chunk was not there to be read. The result says whether a build
    /// was running.
    pub fn abandon_mesh(&mut self, position: IVec3) -> (running: bool)
        ensures
            final(self)@ == mesh_abandoned(old(self)@, position).0,
            running == mesh_abandoned(old(self)@, position).1,
            final(self).properties() == old(self).properties(),
    {
        let running = match self.mesh_states.get(position) {
            Some(ChunkMeshState::MeshBuilding) => true,
            _ => false,
        };
        if running {
            let _ = self.mesh_states.remove(position);
        }
        running
    }
}

/// What a sequence holds after one more value was put at its end.
proof fn lemma_pushed<A>(s: Seq<A>, a: A)
    ensures
        forall|b: A| s.push(a).contains(b) <==> s.contains(b) || b == a,
        s.no_duplicates() && !s.contains(a) ==> s.push(a).no_duplicates(),
{
    assert forall|b: A| s.push(a).contains(b) <==> s.contains(b) || b == a by {
        if s.contains(b) {
            let i = choose|i: int| 0 <= i < s.len() && s[i] == b;
            assert(s.push(a)[i] == b);
        }
        if b == a {
            assert(s.push(a)[s.len() as int] == a);
        }
    }
}

/// True where the position `p` should be loaded and nothing is known of it:
/// it is in range of `camera`, not loaded, not on its way, and not waiting
/// to be cleared after an eviction.
pub open spec fn wanted(v: LevelView, camera: IVec3, horizontal: int, vertical: int, p: IVec3) -> bool {
    &&& in_range(camera, horizontal, vertical, p)
    &&& !v.generation.contains_key(p)
    &&& !v.grid.contains_key(p)
    &&& !v.removed.contains(p)
}

/// The level after the wanted positions among `these` were marked.
pub open spec fn marked_among(
    v: LevelView,
    camera: IVec3,
    horizontal: int,
    vertical: int,
    these: Set<IVec3>,
) -> LevelView {
    LevelView {
        generation: Map::new(
            |p: IVec3|
                v.generation.contains_key(p) || (these.contains(p) && wanted(
                    v,
                    camera,
                    horizontal,
                    vertical,
                    p,
                )),
            |p: IVec3|
                if v.generation.contains_key(p) {
                    v.generation[p]
                } else {
                    ChunkGenerationState::Uninitialized
                },
        ),
        ..v
    }
}

/// The level after every wanted position was marked for generation.
pub open spec fn nearby_marked(v: LevelView, camera: IVec3, horizontal: int, vertical: int) -> LevelView {
    marked_among(v, camera, horizontal, vertical, Set::full())
}

/// The larger of two numbers.
fn larger(a: i64, b: i64) -> (m: i64)
    ensures
        m == (if a >= b {
            a
        } else {
            b
        }),
{
    if a >= b {
        a
    } else {
        b
    }
}

/// The smaller of two numbers.
fn smaller(a: i64, b: i64) -> (m: i64)
    ensures
        m == (if a <= b {
            a
        } else {
            b
        }),
{
    if a <= b {
        a
    } else {
        b
    }
}

impl Level {
    /// Marks every position in range of the viewpoint of which nothing is
    /// known. The result holds the marked positions, each once: for each the
    /// host has to start a worker that generates the chunk.
    pub fn mark_nearby_chunks_uninitialized(
        &mut self,
        camera_position: IVec3,
        horizontal_render_distance: i32,
        vertical_render_distance: i32,
    ) -> (marked: Vec<IVec3>)
        ensures
            final(self)@ == nearby_marked(
                old(self)@,
                camera_position,
                horizontal_render_distance as int,
                vertical_render_distance as int,
            ),
            final(self).properties() == old(self).properties(),
            marked@.no_duplicates(),
            forall|p: IVec3|
                marked@.contains(p) <==> wanted(
                    old(self)@,
                    camera_position,
                    horizontal_render_distance as int,
                    vertical_render_distance as int,
                    p,
                ),
    {
        let ghost before = self@;
        let ghost h = horizontal_render_distance as int;
        let ghost vd = vertical_render_distance as int;
        let low: i64 = -0x8000_0000;
        let high: i64 = 0x7fff_ffff;
        let min_x = larger(camera_position.x as i64 - horizontal_render_distance as i64, low);
        let max_x = smaller(camera_position.x as i64 + horizontal_render_distance as i64, high);
        let min_y = larger(camera_position.y as i64 - vertical_render_distance as i64, low);
        let max_y = smaller(camera_position.y as i64 + vertical_render_distance as i64, high);
        let min_z = larger(camera_position.z as i64 - horizontal_render_distance as i64, low);
        let max_z = smaller(camera_position.z as i64 + horizontal_render_distance as i64, high);
        let mut marked: Vec<IVec3> = Vec::new();
        assert(self@ =~= marked_among(
            before,
            camera_position,
            h,
            vd,
            Set::new(|p: IVec3| comes_before(p, min_x as int, min_y as int, min_z as int)),
        ));
        let mut x: i64 = min_x;
        while x <= max_x
            invariant
                before == old(self)@,
                h == horizontal_render_distance,
                vd == vertical_render_distance,
                self.properties() == old(self).properties(),
                forall|p: IVec3|
                    in_range(camera_position, h, vd, p) <==> (min_x <= p.x <= max_x && min_y <= p.y
                        <= max_y && min_z <= p.z <= max_z),
                -0x8000_0000 <= min_x <= x,
                max_x <= 0x7fff_ffff,
                -0x8000_0000 <= min_y,
                max_y <= 0x7fff_ffff,
                -0x8000_0000 <= min_z,
                max_z <= 0x7fff_ffff,
                x <= max_x + 1 || min_x > max_x,
                self@ == marked_among(
                    before,
                    camera_position,
                    h,
                    vd,
                    Set::new(|p: IVec3| comes_before(p, x as int, min_y as int, min_z as int)),
                ),
                marked@.no_duplicates(),
                forall|p: IVec3|
                    marked@.contains(p) <==> wanted(before, camera_position, h, vd, p)
                        && comes_before(p, x as int, min_y as int, min_z as int),
            decreases max_x + 1 - x,
        {
            let mut y: i64 = min_y;
            while y <= max_y
                invariant
                    before == old(self)@,
                    h == horizontal_render_distance,
                    vd == vertical_render_distance,
                    self.properties() == old(self).properties(),
                    forall|p: IVec3|
                        in_range(camera_position, h, vd, p) <==> (min_x <= p.x <= max_x && min_y
                            <= p.y <= max_y && min_z <= p.z <= max_z),
                    -0x8000_0000 <= min_x <= x <= max_x <= 0x7fff_ffff,
                    -0x8000_0000 <= min_y <= y,
                    max_y <= 0x7fff_ffff,
                    -0x8000_0000 <= min_z,
                    max_z <= 0x7fff_ffff,
                    y <= max_y + 1 || min_y > max_y,
                    self@ == marked_among(
                        before,
                        camera_position,
                        h,
                        vd,
                        Set::new(|p: IVec3| comes_before(p, x as int, y as int, min_z as int)),
                    ),
                    marked@.no_duplicates(),
                    forall|p: IVec3|
                        marked@.contains(p) <==> wanted(before, camera_position, h, vd, p)
                            && comes_before(p, x as int, y as int, min_z as int),
                decreases max_y + 1 - y,
            {
                let mut z: i64 = min_z;
                while z <= max_z
                    invariant
                        before == old(self)@,
                        h == horizontal_render_distance,
                        vd == vertical_render_distance,
                        self.properties() == old(self).properties(),
                        forall|p: IVec3|
                            in_range(camera_position, h, vd, p) <==> (min_x <= p.x <= max_x
                                && min_y <= p.y <= max_y && min_z <= p.z <= max_z),
                        -0x8000_0000 <= min_x <= x <= max_x <= 0x7fff_ffff,
                        -0x8000_0000 <= min_y <= y <= max_y <= 0x7fff_ffff,
                        -0x8000_0000 <= min_z <= z,
                        max_z <= 0x7fff_ffff,
                        z <= max_z + 1 || min_z > max_z,
                        self@ == marked_among(
                            before,
                            camera_position,
                            h,
                            vd,
                            Set::new(|p: IVec3| comes_before(p, x as int, y as int, z as int)),
                        ),
                        marked@.no_duplicates(),
                        forall|p: IVec3|
                            marked@.contains(p) <==> wanted(before, camera_position, h, vd, p)
                                && comes_before(p, x as int, y as int, z as int),
                    decreases max_z + 1 - z,
                {
                    let position = IVec3::new(x as i32, y as i32, z as i32);
                    assert(in_range(camera_position, h, vd, position));
                    assert(!comes_before(position, x as int, y as int, z as int));
                    let ghost marked_before = marked@;
                    let known = self.chunk_states.contains_key(position)
                        || self.chunk_grid.contains_key(position) || self.removed.contains_key(
                        position,
                    );
                    assert(known == !wanted(before, camera_position, h, vd, position));
                    if !known {
                        let _ = self.chunk_states.insert(
                            position,
                            ChunkGenerationState::Uninitialized,
                        );
                        proof {
                            lemma_pushed(marked@, position);
                        }
                        marked.push(position);
                    }
                    proof {
                        assert forall|p: IVec3|
                            comes_before(p, x as int, y as int, z + 1) <==> (comes_before(
                                p,
                                x as int,
                                y as int,
                                z as int,
                            ) || p == position) by {}
                        assert(self@ =~= marked_among(
                            before,
                            camera_position,
                            h,
                            vd,
                            Set::new(|p: IVec3| comes_before(p, x as int, y as int, z + 1)),
                        ));
                        lemma_pushed(marked_before, position);
                        assert forall|p: IVec3|
                            marked@.contains(p) <==> wanted(before, camera_position, h, vd, p)
                                && comes_before(p, x as int, y as int, z + 1) by {
                            if p == position {
                                assert(marked_before.contains(p) == false);
                            } else {
                                assert(marked@.contains(p) == marked_before.contains(p));
                            }
                        }
                    }
                    z += 1;
                }
                proof {
                    assert forall|p: IVec3|
                        in_range(camera_position, h, vd, p) implies (comes_before(
                            p,
                            x as int,
                            y as int,
                            z as int,
                        ) <==> comes_before(p, x as int, y + 1, min_z as int)) by {}
                    assert(self@ =~= marked_among(
                        before,
                        camera_position,
                        h,
                        vd,
                        Set::new(|p: IVec3| comes_before(p, x as int, y + 1, min_z as int)),
                    ));
                }
                y += 1;
            }
            proof {
                assert forall|p: IVec3|
                    in_range(camera_position, h, vd, p) implies (comes_before(
                        p,
                        x as int,
                        y as int,
                        min_z as int,
                    ) <==> comes_before(p, x + 1, min_y as int, min_z as int)) by {}
                assert(self@ =~= marked_among(
                    before,
                    camera_position,
                    h,
                    vd,
                    Set::new(|p: IVec3| comes_before(p, x + 1, min_y as int, min_z as int)),
                ));
            }
            x += 1;
        }
        proof {
            assert forall|p: IVec3|
                in_range(camera_position, h, vd, p) implies comes_before(
                    p,
                    x as int,
                    min_y as int,
                    min_z as int,
                ) by {}
            assert(self@ =~= nearby_marked(before, camera_position, h, vd));
        }
        marked
    }
}

/// True where a chunk was made for `p` and waits to be put on the grid.
pub open spec fn finished(v: LevelView, p: IVec3) -> bool {
    v.generation.contains_key(p) && v.generation[p] is Generated
}

/// True where a chunk was made for `p` and goes onto the grid: the position
/// was not evicted meanwhile.
pub open spec fn arrives(v: LevelView, p: IVec3) -> bool {
    finished(v, p) && !v.removed.contains(p)
}

/// The level after the chunks that were made for positions among `these`
/// were taken over: each leaves the positions on their way; where it
/// arrives, it stands on the grid and its mesh is asked for.
pub open spec fn finalized_among(v: LevelView, these: Set<IVec3>) -> LevelView {
    LevelView {
        generation: Map::new(
            |p: IVec3| v.generation.contains_key(p) && !(these.contains(p) && finished(v, p)),
            |p: IVec3| v.generation[p],
        ),
        grid: Map::new(
            |p: IVec3| v.grid.contains_key(p) || (these.contains(p) && arrives(v, p)),
            |p: IVec3|
                if these.contains(p) && arrives(v, p) {
                    chunk_at(p, v.generation[p]->0)
                } else {
                    v.grid[p]
                },
        ),
        remesh: Set::new(|p: IVec3| v.remesh.contains(p) || (these.contains(p) && arrives(v, p))),
        ..v
    }
}

/// The level after every chunk that was made was taken over.
pub open spec fn generation_finalized(v: LevelView) -> LevelView {
    finalized_among(v, Set::full())
}

impl Level {
    /// Takes over the chunks that the workers have made: puts each on the
    /// grid and asks for its mesh, or drops it where its position was
    /// evicted meanwhile. The result holds the positions of the chunks that
    /// went onto the grid, each once.
    pub fn finalize_chunk_generation(&mut self) -> (arrived: Vec<IVec3>)
        ensures
            final(self)@ == generation_finalized(old(self)@),
            final(self).properties() == old(self).properties(),
            arrived@.no_duplicates(),
            forall|p: IVec3| #[trigger] arrived@.contains(p) <==> arrives(old(self)@, p),
    {
        let ghost before = self@;
        let keys = self.chunk_states.keys();
        let mut arrived: Vec<IVec3> = Vec::new();
        proof {
            assert forall|p: IVec3| !among_first(keys@, 0, p) by {
                lemma_among_first_ends(keys@, p);
            }
            assert(self@ =~= finalized_among(
                before,
                Set::new(|p: IVec3| among_first(keys@, 0, p)),
            ));
        }
        let mut i: usize = 0;
        while i < keys.len()
            invariant
                i <= keys@.len(),
                before == old(self)@,
                self.properties() == old(self).properties(),
                keys@.no_duplicates(),
                forall|p: IVec3| keys@.contains(p) <==> before.generation.contains_key(p),
                self@ == finalized_among(
                    before,
                    Set::new(|p: IVec3| among_first(keys@, i as int, p)),
                ),
                arrived@.no_duplicates(),
                forall|p: IVec3|
                    #![trigger arrived@.contains(p)]
                    arrived@.contains(p) <==> among_first(keys@, i as int, p) && arrives(
                        before,
                        p,
                    ),
            decreases keys@.len() - i,
        {
            let position = keys[i];
            let ghost arrived_before = arrived@;
            proof {
                lemma_among_first_step(keys@, i as int, position);
                assert forall|p: IVec3|
                    among_first(keys@, i + 1, p) <==> among_first(keys@, i as int, p) || p
                        == position by {
                    lemma_among_first_step(keys@, i as int, p);
                }
                assert(keys@.contains(position));
                assert(position == keys@[i as int]);
                assert(!among_first(keys@, i as int, position));
                assert(!arrived@.contains(position));
            }
            let is_finished = match self.chunk_states.get(position) {
                Some(ChunkGenerationState::Generated(_)) => true,
                _ => false,
            };
            assert(is_finished == finished(before, position));
            if is_finished {
                match self.chunk_states.remove(position) {
                    Some(ChunkGenerationState::Generated(chunk)) => {
                        if !self.removed.contains_key(position) {
                            let stamped = Chunk { position, contents: chunk.contents };
                            let _ = self.chunk_grid.insert(stamped);
                            let _ = self.remesh.insert(position, ());
                            proof {
                                lemma_pushed(arrived@, position);
                            }
                            arrived.push(position);
                        }
                    },
                    _ => {},
                }
            }
            proof {
                assert(self@ =~= finalized_among(
                    before,
                    Set::new(|p: IVec3| among_first(keys@, i + 1, p)),
                ));
                lemma_pushed(arrived_before, position);
                assert(!arrived_before.contains(position));
                assert(arrived@ == (if arrives(before, position) {
                    arrived_before.push(position)
                } else {
                    arrived_before
                }));
                assert forall|p: IVec3|
                    #![trigger arrived@.contains(p)]
                    arrived@.contains(p) <==> among_first(keys@, i + 1, p) && arrives(
                        before,
                        p,
                    ) by {
                    lemma_among_first_step(keys@, i as int, p);
                    if p != position {
                        assert(arrived@.contains(p) == arrived_before.contains(p));
                    }
                }
            }
            i += 1;
        }
        proof {
            assert forall|p: IVec3|
                among_first(keys@, i as int, p) <==> before.generation.contains_key(p) by {
                lemma_among_first_ends(keys@, p);
            }
            assert(self@ =~= generation_finalized(before));
        }
        arrived
    }
}

/// True where a mesh build can be started for `p`: a new mesh was asked
/// for, the chunk is loaded, and no worker has been given the build yet.
pub open spec fn mesh_startable(v: LevelView, p: IVec3) -> bool {
    &&& v.remesh.contains(p)
    &&& v.grid.contains_key(p)
    &&& !v.meshing.contains_key(p) || v.meshing[p] is MeshReady
}

/// True where a new mesh was asked for `p` while a worker is building one:
/// the request waits until that build is over.
pub open spec fn mesh_deferred(v: LevelView, p: IVec3) -> bool {
    &&& v.remesh.contains(p)
    &&& v.grid.contains_key(p)
    &&& v.meshing.contains_key(p)
    &&& v.meshing[p] is MeshBuilding
}

/// The level after the requests for a new mesh among `these` were looked
/// at: a mesh build is wanted where one can be started, and each request is
/// gone but those that wait for a running build.
pub open spec fn remesh_handled_among(v: LevelView, these: Set<IVec3>) -> LevelView {
    LevelView {
        remesh: Set::new(
            |p: IVec3| v.remesh.contains(p) && (!these.contains(p) || mesh_deferred(v, p)),
        ),
        meshing: Map::new(
            |p: IVec3| v.meshing.contains_key(p) || (these.contains(p) && mesh_startable(v, p)),
            |p: IVec3|
                if these.contains(p) && mesh_startable(v, p) {
                    ChunkMeshState::Unmeshed
                } else {
                    v.meshing[p]
                },
        ),
        ..v
    }
}

/// The level after every request for a new mesh was looked at.
pub open spec fn remesh_handled(v: LevelView) -> LevelView {
    remesh_handled_among(v, Set::full())
}

impl Level {
    /// Asks for a new mesh of the chunk at `position`. To ask twice is to
    /// ask once.
    pub fn rebuild_mesh(&mut self, position: IVec3)
        ensures
            final(self)@ == (LevelView { remesh: old(self)@.remesh.insert(position), ..old(self)@ }),
            final(self).properties() == old(self).properties(),
    {
        let _ = self.remesh.insert(position, ());
        assert(self@ =~= (LevelView { remesh: old(self)@.remesh.insert(position), ..old(self)@ }));
    }

    /// Looks at the requests for a new mesh. The result holds the positions
    /// for which a mesh build is now wanted, each once: for each the host
    /// has to start a worker that builds the mesh. A request for a chunk
    /// that is not loaded is dropped; one for a chunk whose build no worker
    /// has taken yet is served by that build; one for a chunk whose mesh is
    /// being built waits until that build is over.
    pub fn handle_remesh_queue(&mut self) -> (started: Vec<IVec3>)
        ensures
            final(self)@ == remesh_handled(old(self)@),
            final(self).properties() == old(self).properties(),
            started@.no_duplicates(),
            forall|p: IVec3| #[trigger] started@.contains(p) <==> mesh_startable(old(self)@, p),
    {
        let ghost before = self@;
        let keys = self.remesh.keys();
        let mut started: Vec<IVec3> = Vec::new();
        proof {
            assert forall|p: IVec3| !among_first(keys@, 0, p) by {
                lemma_among_first_ends(keys@, p);
            }
            assert(self@ =~= remesh_handled_among(
                before,
                Set::new(|p: IVec3| among_first(keys@, 0, p)),
            ));
        }
        let mut i: usize = 0;
        while i < keys.len()
            invariant
                i <= keys@.len(),
                before == old(self)@,
                self.properties() == old(self).properties(),
                keys@.no_duplicates(),
                forall|p: IVec3| keys@.contains(p) <==> before.remesh.contains(p),
                self@ == remesh_handled_among(
                    before,
                    Set::new(|p: IVec3| among_first(keys@, i as int, p)),
                ),
                started@.no_duplicates(),
                forall|p: IVec3|
                    #![trigger started@.contains(p)]
                    started@.contains(p) <==> among_first(keys@, i as int, p) && mesh_startable(
                        before,
                        p,
                    ),
            decreases keys@.len() - i,
        {
            let position = keys[i];
            let ghost started_before = started@;
            proof {
                lemma_among_first_step(keys@, i as int, position);
                assert forall|p: IVec3|
                    among_first(keys@, i + 1, p) <==> among_first(keys@, i as int, p) || p
                        == position by {
                    lemma_among_first_step(keys@, i as int, p);
                }
                assert(keys@.contains(position));
                assert(!started@.contains(position));
            }
            let loaded = self.chunk_grid.contains_key(position);
            let (pending, running) = match self.mesh_states.get(position) {
                Some(ChunkMeshState::Unmeshed) => (true, false),
                Some(ChunkMeshState::MeshBuilding) => (false, true),
                _ => (false, false),
            };
            if !loaded || pending {
                let _ = self.remesh.remove(position);
            } else if !running {
                let _ = self.mesh_states.insert(position, ChunkMeshState::Unmeshed);
                let _ = self.remesh.remove(position);
                started.push(position);
            }
            proof {
                assert(self@ =~= remesh_handled_among(
                    before,
                    Set::new(|p: IVec3| among_first(keys@, i + 1, p)),
                ));
                lemma_pushed(started_before, position);
                assert(started@ == (if mesh_startable(before, position) {
                    started_before.push(position)
                } else {
                    started_before
                }));
                assert forall|p: IVec3|
                    #![trigger started@.contains(p)]
                    started@.contains(p) <==> among_first(keys@, i + 1, p) && mesh_startable(
                        before,
                        p,
                    ) by {
                    lemma_among_first_step(keys@, i as int, p);
                    if p != position {
                        assert(started@.contains(p) == started_before.contains(p));
                    }
                }
            }
            i += 1;
        }
        proof {
            assert forall|p: IVec3|
                among_first(keys@, i as int, p) <==> before.remesh.contains(p) by {
                lemma_among_first_ends(keys@, p);
            }
            assert(self@ =~= remesh_handled(before));
        }
        started
    }
}

/// True where the mesh of the chunk at `p` is built and waits to be shown.
pub open spec fn mesh_ready(v: LevelView, p: IVec3) -> bool {
    v.meshing.contains_key(p) && v.meshing[p] is MeshReady
}

/// The position of the chunk that an event is about.
pub open spec fn event_position(event: MeshEvent) -> IVec3 {
    match event {
        MeshEvent::Create { position, .. } => position,
        MeshEvent::Update { position, .. } => position,
        MeshEvent::Clear { position } => position,
    }
}

/// What the host has to do for the chunk at `p` when its ready mesh is
/// applied: show the chunk with its first mesh, replace the mesh of a chunk
/// that is shown, take the mesh away where none is left, and nothing where
/// nothing is shown and there is no mesh to show.
pub open spec fn event_for(v: LevelView, p: IVec3) -> Option<MeshEvent> {
    if !mesh_ready(v, p) {
        None
    } else {
        match v.meshing[p]->0 {
            Some(mesh) => if v.entities.contains(p) {
                Some(MeshEvent::Update { position: p, mesh })
            } else {
                Some(MeshEvent::Create { position: p, mesh })
            },
            None => if v.entities.contains(p) {
                Some(MeshEvent::Clear { position: p })
            } else {
                None
            },
        }
    }
}

/// The level after the ready meshes among `these` were applied: they have
/// left the meshes in the making, and every chunk that got its first mesh
/// is shown.
pub open spec fn meshes_applied_among(v: LevelView, these: Set<IVec3>) -> LevelView {
    LevelView {
        meshing: Map::new(
            |p: IVec3| v.meshing.contains_key(p) && !(these.contains(p) && mesh_ready(v, p)),
            |p: IVec3| v.meshing[p],
        ),
        entities: Set::new(
            |p: IVec3|
                v.entities.contains(p) || (these.contains(p) && mesh_ready(v, p)
                    && v.meshing[p]->0 is Some),
        ),
        ..v
    }
}

/// The level after every ready mesh was applied.
pub open spec fn meshes_applied(v: LevelView) -> LevelView {
    meshes_applied_among(v, Set::full())
}

impl Level {
    /// Applies the meshes that the workers have built. The result says what
    /// the host has to do, with at most one event for a chunk.
    pub fn apply_ready_meshes(&mut self) -> (events: Vec<MeshEvent>)
        ensures
            final(self)@ == meshes_applied(old(self)@),
            final(self).properties() == old(self).properties(),
            forall|e: MeshEvent|
                #[trigger] events@.contains(e) <==> event_for(old(self)@, event_position(e))
                    == Some(e),
            forall|a: int, b: int|
                0 <= a < b < events@.len() ==> event_position(events@[a]) != event_position(
                    events@[b],
                ),
    {
        let ghost before = self@;
        let keys = self.mesh_states.keys();
        let mut events: Vec<MeshEvent> = Vec::new();
        proof {
            assert forall|p: IVec3| !among_first(keys@, 0, p) by {
                lemma_among_first_ends(keys@, p);
            }
            assert(self@ =~= meshes_applied_among(
                before,
                Set::new(|p: IVec3| among_first(keys@, 0, p)),
            ));
        }
        let mut i: usize = 0;
        while i < keys.len()
            invariant
                i <= keys@.len(),
                before == old(self)@,
                self.properties() == old(self).properties(),
                keys@.no_duplicates(),
                forall|p: IVec3| keys@.contains(p) <==> before.meshing.contains_key(p),
                self@ == meshes_applied_among(
                    before,
                    Set::new(|p: IVec3| among_first(keys@, i as int, p)),
                ),
                forall|e: MeshEvent|
                    #![trigger events@.contains(e)]
                    events@.contains(e) <==> among_first(keys@, i as int, event_position(e))
                        && event_for(before, event_position(e)) == Some(e),
                forall|a: int, b: int|
                    0 <= a < b < events@.len() ==> event_position(events@[a]) != event_position(
                        events@[b],
                    ),
            decreases keys@.len() - i,
        {
            let position = keys[i];
            let ghost events_before = events@;
            proof {
                lemma_among_first_step(keys@, i as int, position);
                assert(keys@.contains(position));
            }
            let ready = match self.mesh_states.get(position) {
                Some(ChunkMeshState::MeshReady(_)) => true,
                _ => false,
            };
            if ready {
                let shown = self.chunk_entities.contains_key(position);
                match self.mesh_states.remove(position) {
                    Some(ChunkMeshState::MeshReady(Some(mesh))) => {
                        if shown {
                            events.push(MeshEvent::Update { position, mesh });
                        } else {
                            let _ = self.chunk_entities.insert(position, ());
                            events.push(MeshEvent::Create { position, mesh });
                        }
                    },
                    Some(ChunkMeshState::MeshReady(None)) => {
                        if shown {
                            events.push(MeshEvent::Clear { position });
                        }
                    },
                    _ => {},
                }
            }
            proof {
                assert(self@ =~= meshes_applied_among(
                    before,
                    Set::new(|p: IVec3| among_first(keys@, i + 1, p)),
                ));
                let made = event_for(before, position);
                assert(events@ == (match made {
                    Some(e) => events_before.push(e),
                    None => events_before,
                }));
                if made is Some {
                    lemma_pushed(events_before, made->0);
                }
                assert forall|e: MeshEvent|
                    #![trigger events@.contains(e)]
                    events@.contains(e) <==> among_first(keys@, i + 1, event_position(e))
                        && event_for(before, event_position(e)) == Some(e) by {
                    lemma_among_first_step(keys@, i as int, event_position(e));
                    if event_position(e) != position {
                        assert(events@.contains(e) == events_before.contains(e));
                    } else {
                        assert(!events_before.contains(e));
                    }
                }
                assert forall|a: int, b: int| 0 <= a < b < events@.len() implies event_position(
                    events@[a],
                ) != event_position(events@[b]) by {
                    if b == events_before.len() {
                        assert(events_before.contains(events_before[a]));
                    }
                }
            }
            i += 1;
        }
        proof {
            assert forall|e: MeshEvent|
                #![trigger events@.contains(e)]
                events@.contains(e) <==> event_for(before, event_position(e)) == Some(e) by {
                lemma_among_first_ends(keys@, event_position(e));
            }
            assert forall|p: IVec3|
                among_first(keys@, i as int, p) <==> before.meshing.contains_key(p) by {
                lemma_among_first_ends(keys@, p);
            }
            assert(self@ =~= meshes_applied(before));
        }
        events
    }
}

/// True where the chunk at `p` is evicted now: it is loaded and out of range
/// of `camera`, and no worker is in the middle of making it or its mesh.
pub open spec fn evictable(v: LevelView, camera: IVec3, horizontal: int, vertical: int, p: IVec3) -> bool {
    &&& v.grid.contains_key(p)
    &&& !in_range(camera, horizontal, vertical, p)
    &&& !(v.meshing.contains_key(p) && v.meshing[p] is MeshBuilding)
    &&& !(v.generation.contains_key(p) && v.generation[p] is Generating)
}

/// The level after the chunks among `these` that are evicted now were taken
/// off the grid: each is off the grid and waits to be cleared, and neither
/// a mesh nor a request for one is left of it.
pub open spec fn evicted_among(
    v: LevelView,
    camera: IVec3,
    horizontal: int,
    vertical: int,
    these: Set<IVec3>,
) -> LevelView {
    LevelView {
        grid: Map::new(
            |p: IVec3|
                v.grid.contains_key(p) && !(these.contains(p) && evictable(
                    v,
                    camera,
                    horizontal,
                    vertical,
                    p,
                )),
            |p: IVec3| v.grid[p],
        ),
        removed: Set::new(
            |p: IVec3|
                v.removed.contains(p) || (these.contains(p) && evictable(
                    v,
                    camera,
                    horizontal,
                    vertical,
                    p,
                )),
        ),
        remesh: Set::new(
            |p: IVec3|
                v.remesh.contains(p) && !(these.contains(p) && evictable(
                    v,
                    camera,
                    horizontal,
                    vertical,
                    p,
                )),
        ),
        meshing: Map::new(
            |p: IVec3|
                v.meshing.contains_key(p) && !(these.contains(p) && evictable(
                    v,
                    camera,
                    horizontal,
                    vertical,
                    p,
                )),
            |p: IVec3| v.meshing[p],
        ),
        ..v
    }
}

/// The level after every chunk that is evicted now was taken off the grid.
pub open spec fn far_chunks_removed(v: LevelView, camera: IVec3, horizontal: int, vertical: int) -> LevelView {
    evicted_among(v, camera, horizontal, vertical, Set::full())
}

/// The level after the chunk at `p` was handed over to be saved: what was
/// left of its mesh is gone, and the position can be cleared. Nothing
/// changes where the position was not evicted.
pub open spec fn chunk_saved(v: LevelView, p: IVec3) -> LevelView {
    if v.removed.contains(p) {
        LevelView {
            meshing: v.meshing.remove(p),
            generation: v.generation.insert(p, ChunkGenerationState::Removed),
            ..v
        }
    } else {
        v
    }
}

/// True where the chunk at `p` was evicted and saved.
pub open spec fn saved(v: LevelView, p: IVec3) -> bool {
    v.generation.contains_key(p) && v.generation[p] is Removed
}

/// The level after the saved positions among `these` were cleared: nothing
/// is known of them any more, and nothing is shown of them.
pub open spec fn cleaned_among(v: LevelView, these: Set<IVec3>) -> LevelView {
    LevelView {
        generation: Map::new(
            |p: IVec3| v.generation.contains_key(p) && !(these.contains(p) && saved(v, p)),
            |p: IVec3| v.generation[p],
        ),
        removed: Set::new(|p: IVec3| v.removed.contains(p) && !(these.contains(p) && saved(v, p))),
        entities: Set::new(
            |p: IVec3| v.entities.contains(p) && !(these.contains(p) && saved(v, p)),
        ),
        ..v
    }
}

/// The level after every saved position was cleared.
pub open spec fn saved_chunks_cleaned(v: LevelView) -> LevelView {
    cleaned_among(v, Set::full())
}

impl Level {
    /// Takes the chunks that are out of range off the grid. A chunk whose
    /// mesh is being built stays until the build is over. The result holds
    /// the evicted chunks, each once: the host has to save each and then
    /// call `save_chunk`.
    pub fn remove_far_chunks(
        &mut self,
        camera_position: IVec3,
        horizontal_render_distance: i32,
        vertical_render_distance: i32,
    ) -> (evicted: Vec<Chunk>)
        ensures
            final(self)@ == far_chunks_removed(
                old(self)@,
                camera_position,
                horizontal_render_distance as int,
                vertical_render_distance as int,
            ),
            final(self).properties() == old(self).properties(),
            forall|c: Chunk|
                #[trigger] evicted@.contains(c) <==> evictable(
                    old(self)@,
                    camera_position,
                    horizontal_render_distance as int,
                    vertical_render_distance as int,
                    c.position,
                ) && old(self)@.grid[c.position] == c,
            forall|a: int, b: int|
                0 <= a < b < evicted@.len() ==> evicted@[a].position != evicted@[b].position,
    {
        let ghost before = self@;
        let ghost h = horizontal_render_distance as int;
        let ghost vd = vertical_render_distance as int;
        let keys = self.chunk_grid.positions();
        let mut evicted: Vec<Chunk> = Vec::new();
        proof {
            assert forall|p: IVec3| !among_first(keys@, 0, p) by {
                lemma_among_first_ends(keys@, p);
            }
            assert(self@ =~= evicted_among(
                before,
                camera_position,
                h,
                vd,
                Set::new(|p: IVec3| among_first(keys@, 0, p)),
            ));
        }
        let mut i: usize = 0;
        while i < keys.len()
            invariant
                i <= keys@.len(),
                before == old(self)@,
                h == horizontal_render_distance,
                vd == vertical_render_distance,
                self.properties() == old(self).properties(),
                keys@.no_duplicates(),
                forall|p: IVec3| keys@.contains(p) <==> before.grid.contains_key(p),
                self@ == evicted_among(
                    before,
                    camera_position,
                    h,
                    vd,
                    Set::new(|p: IVec3| among_first(keys@, i as int, p)),
                ),
                forall|c: Chunk|
                    #![trigger evicted@.contains(c)]
                    evicted@.contains(c) <==> among_first(keys@, i as int, c.position)
                        && evictable(before, camera_position, h, vd, c.position)
                        && before.grid[c.position] == c,
                forall|a: int, b: int|
                    0 <= a < b < evicted@.len() ==> evicted@[a].position != evicted@[b].position,
            decreases keys@.len() - i,
        {
            let position = keys[i];
            let ghost evicted_before = evicted@;
            proof {
                lemma_among_first_step(keys@, i as int, position);
                assert(keys@.contains(position));
            }
            let dx: i64 = position.x as i64 - camera_position.x as i64;
            let dy: i64 = position.y as i64 - camera_position.y as i64;
            let dz: i64 = position.z as i64 - camera_position.z as i64;
            let horizontal: i64 = horizontal_render_distance as i64;
            let vertical: i64 = vertical_render_distance as i64;
            let near = -horizontal <= dx && dx <= horizontal && -vertical <= dy && dy <= vertical
                && -horizontal <= dz && dz <= horizontal;
            assert(near == in_range(camera_position, h, vd, position));
            let meshing = match self.mesh_states.get(position) {
                Some(ChunkMeshState::MeshBuilding) => true,
                _ => false,
            };
            let generating = match self.chunk_states.get(position) {
                Some(ChunkGenerationState::Generating) => true,
                _ => false,
            };
            let ghost goes = evictable(before, camera_position, h, vd, position);
            assert(goes == (!near && !meshing && !generating));
            if !near && !meshing && !generating {
                match self.chunk_grid.remove(position) {
                    Some(chunk) => {
                        let _ = self.removed.insert(position, ());
                        let _ = self.remesh.remove(position);
                        let _ = self.mesh_states.remove(position);
                        evicted.push(chunk);
                    },
                    None => {},
                }
            }
            proof {
                assert(self@ =~= evicted_among(
                    before,
                    camera_position,
                    h,
                    vd,
                    Set::new(|p: IVec3| among_first(keys@, i + 1, p)),
                ));
                assert(evicted@ == (if goes {
                    evicted_before.push(before.grid[position])
                } else {
                    evicted_before
                }));
                lemma_pushed(evicted_before, before.grid[position]);
                assert forall|c: Chunk|
                    #![trigger evicted@.contains(c)]
                    evicted@.contains(c) <==> among_first(keys@, i + 1, c.position) && evictable(
                        before,
                        camera_position,
                        h,
                        vd,
                        c.position,
                    ) && before.grid[c.position] == c by {
                    lemma_among_first_step(keys@, i as int, c.position);
                    if c.position != position {
                        assert(evicted@.contains(c) == evicted_before.contains(c));
                    } else {
                        assert(!evicted_before.contains(c));
                    }
                }
                assert forall|a: int, b: int| 0 <= a < b < evicted@.len() implies evicted@[a].position
                    != evicted@[b].position by {
                    if b == evicted_before.len() {
                        assert(evicted_before.contains(evicted_before[a]));
                    }
                }
            }
            i += 1;
        }
        proof {
            assert forall|c: Chunk|
                #![trigger evicted@.contains(c)]
                evicted@.contains(c) <==> evictable(before, camera_position, h, vd, c.position)
                    && before.grid[c.position] == c by {
                lemma_among_first_ends(keys@, c.position);
            }
            assert forall|p: IVec3| among_first(keys@, i as int, p) <==> before.grid.contains_key(
                p,
            ) by {
                lemma_among_first_ends(keys@, p);
            }
            assert(self@ =~= far_chunks_removed(before, camera_position, h, vd));
        }
        evicted
    }

    /// Takes note that the evicted chunk `chunk` is handed over to be saved,
    /// and gives its stored form: what is left of its mesh is dropped, and
    /// its position can be cleared. For a chunk whose position was not
    /// evicted only the stored form is made.
    pub fn save_chunk(&mut self, chunk: &Chunk) -> (stored: SerializableChunkContents)
        ensures
            final(self)@ == chunk_saved(old(self)@, chunk.position),
            final(self).properties() == old(self).properties(),
            stored.cells@ == chunk.contents@,
    {
        if self.removed.contains_key(chunk.position) {
            let _ = self.mesh_states.remove(chunk.position);
            let _ = self.chunk_states.insert(chunk.position, ChunkGenerationState::Removed);
        }
        chunk.save()
    }

    /// Clears the positions whose chunk was evicted and saved. The result
    /// holds the cleared positions of which something is shown, each once:
    /// the host has to take away what it shows of them.
    pub fn cleanup_saved_chunks(&mut self) -> (despawned: Vec<IVec3>)
        ensures
            final(self)@ == saved_chunks_cleaned(old(self)@),
            final(self).properties() == old(self).properties(),
            despawned@.no_duplicates(),
            forall|p: IVec3|
                #[trigger] despawned@.contains(p) <==> saved(old(self)@, p) && old(self)@.entities.contains(p),
    {
        let ghost before = self@;
        let keys = self.chunk_states.keys();
        let mut despawned: Vec<IVec3> = Vec::new();
        proof {
            assert forall|p: IVec3| !among_first(keys@, 0, p) by {
                lemma_among_first_ends(keys@, p);
            }
            assert(self@ =~= cleaned_among(before, Set::new(|p: IVec3| among_first(keys@, 0, p))));
        }
        let mut i: usize = 0;
        while i < keys.len()
            invariant
                i <= keys@.len(),
                before == old(self)@,
                self.properties() == old(self).properties(),
                keys@.no_duplicates(),
                forall|p: IVec3| keys@.contains(p) <==> before.generation.contains_key(p),
                self@ == cleaned_among(
                    before,
                    Set::new(|p: IVec3| among_first(keys@, i as int, p)),
                ),
                despawned@.no_duplicates(),
                forall|p: IVec3|
                    #![trigger despawned@.contains(p)]
                    despawned@.contains(p) <==> among_first(keys@, i as int, p) && saved(before, p)
                        && before.entities.contains(p),
            decreases keys@.len() - i,
        {
            let position = keys[i];
            let ghost despawned_before = despawned@;
            proof {
                lemma_among_first_step(keys@, i as int, position);
                assert(keys@.contains(position));
                assert(!despawned@.contains(position));
            }
            let is_saved = match self.chunk_states.get(position) {
                Some(ChunkGenerationState::Removed) => true,
                _ => false,
            };
            if is_saved {
                let _ = self.chunk_states.remove(position);
                let _ = self.removed.remove(position);
                if self.chunk_entities.remove(position).is_some() {
                    despawned.push(position);
                }
            }
            proof {
                assert(self@ =~= cleaned_among(
                    before,
                    Set::new(|p: IVec3| among_first(keys@, i + 1, p)),
                ));
                lemma_pushed(despawned_before, position);
                assert(despawned@ == (if saved(before, position) && before.entities.contains(
                    position,
                ) {
                    despawned_before.push(position)
                } else {
                    despawned_before
                }));
                assert forall|p: IVec3|
                    #![trigger despawned@.contains(p)]
                    despawned@.contains(p) <==> among_first(keys@, i + 1, p) && saved(before, p)
                        && before.entities.contains(p) by {
                    lemma_among_first_step(keys@, i as int, p);
                    if p != position {
                        assert(despawned@.contains(p) == despawned_before.contains(p));
                    }
                }
            }
            i += 1;
        }
        proof {
            assert forall|p: IVec3|
                among_first(keys@, i as int, p) <==> before.generation.contains_key(p) by {
                lemma_among_first_ends(keys@, p);
            }
            assert(self@ =~= saved_chunks_cleaned(before));
        }
        despawned
    }

    /// Puts `block` at the world position `position`, or clears the cell
    /// where `block` is `None`, and asks for a new mesh of the chunk. Where
    /// the chunk that holds the position is not loaded nothing changes and
    /// the result is `None`.
    pub fn set_block(&mut self, position: IVec3, block: Option<Block>) -> (done: Option<()>)
        ensures
            final(self).properties() == old(self).properties(),
            final(self)@.generation == old(self)@.generation,
            final(self)@.removed == old(self)@.removed,
            final(self)@.meshing == old(self)@.meshing,
            final(self)@.entities == old(self)@.entities,
            old(self)@.grid.contains_key(chunk_position_of(position)) ==> done is Some
                && cell_replaced(old(self)@.grid, final(self)@.grid, position, block) && final(self)@.remesh == old(self)@.remesh.insert(chunk_position_of(position)),
            !old(self)@.grid.contains_key(chunk_position_of(position)) ==> done is None && final(self)@ == old(self)@,
    {
        match self.chunk_grid.set_block(position, block) {
            Some(()) => {
                let _ = self.remesh.insert(ChunkGrid::to_chunk_coordinates(position), ());
                assert(self@.remesh =~= old(self)@.remesh.insert(chunk_position_of(position)));
                Some(())
            },
            None => {
                assert(self@ =~= old(self)@);
                None
            },
        }
    }

    /// The work of a generation worker, done at once: takes the generation
    /// of the chunk at `position`, makes the chunk from its stored form or
    /// else from the terrain heights, and hands it in. The result says
    /// whether the worker got the generation.
    pub fn create_chunk(
        &mut self,
        position: IVec3,
        stored: Option<SerializableChunkContents>,
        heights: &HeightMap,
    ) -> (made: bool)
        ensures
            final(self).properties() == old(self).properties(),
            made == generation_begun(old(self)@, position).1,
            !made ==> final(self)@ == old(self)@,
            made ==> final(self)@.generation.contains_key(position) && final(self)@.generation[position] is Generated && is_loaded_or_generated(
                final(self)@.generation[position]->0,
                position,
                stored,
                heights@,
            ) && final(self)@ == (LevelView {
                generation: old(self)@.generation.insert(
                    position,
                    final(self)@.generation[position],
                ),
                ..old(self)@
            }),
    {
        if !self.begin_generation(position) {
            return false;
        }
        let chunk = Chunk::load_or_generate(position, stored, heights);
        let taken = self.complete_generation(position, chunk);
        assert(taken);
        assert(self@ =~= (LevelView {
            generation: old(self)@.generation.insert(position, self@.generation[position]),
            ..old(self)@
        }));
        true
    }

    /// The work of a mesh worker, done at once: takes the mesh build of the
    /// chunk at `position`, builds the mesh, and hands it in, or gives the
    /// build up where the chunk is not loaded. The result says whether the
    /// worker got the build.
    pub fn remesh_chunk<T>(&mut self, position: IVec3, atlas: &AtlasManager<T>) -> (built: bool)
        requires
            atlas.error_atlas_location() is Some,
        ensures
            final(self).properties() == old(self).properties(),
            built == mesh_begun(old(self)@, position).1,
            !built ==> final(self)@ == old(self)@,
            built && !old(self)@.grid.contains_key(position) ==> final(self)@ == (LevelView {
                meshing: old(self)@.meshing.remove(position),
                ..old(self)@
            }),
            built && old(self)@.grid.contains_key(position) ==> final(self)@.meshing.contains_key(
                position,
            ) && is_mesh_of(
                final(self)@.meshing[position],
                chunk_quads(old(self)@.grid, old(self)@.grid[position], *atlas),
            ) && final(self)@ == (LevelView {
                meshing: old(self)@.meshing.insert(position, final(self)@.meshing[position]),
                ..old(self)@
            }),
    {
        if !self.begin_mesh(position) {
            return false;
        }
        match build_mesh(&self.chunk_grid, position, atlas) {
            Some(mesh) => {
                let taken = self.complete_mesh(position, mesh);
                assert(taken);
                assert(self@ =~= (LevelView {
                    meshing: old(self)@.meshing.insert(position, self@.meshing[position]),
                    ..old(self)@
                }));
            },
            None => {
                let running = self.abandon_mesh(position);
                assert(running);
                assert(self@ =~= (LevelView {
                    meshing: old(self)@.meshing.remove(position),
                    ..old(self)@
                }));
            },
        }
        true
    }
}

/// True where `state` is a ready mesh made of the squares `quads`: the mesh
/// of these squares, or no mesh where there is no square.
pub open spec fn is_mesh_of(state: ChunkMeshState, quads: Seq<Quad>) -> bool {
    &&& state is MeshReady
    &&& match state->0 {
        Some(mesh) => mesh@ == quads && quads.len() > 0,
        None => quads.len() == 0,
    }
}

} // verus!
