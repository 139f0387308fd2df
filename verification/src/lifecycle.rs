//! The level as a state machine: its steps, what holds of every state that
//! the steps can reach, and what follows for the workers: while one of them
//! generates a chunk or builds a mesh, no other gets the same work.

use crate::chunk::Chunk;
use crate::level::{
    chunk_saved, far_chunks_removed, generation_begun, generation_completed,
    generation_finalized, mesh_abandoned, mesh_begun, mesh_completed, meshes_applied,
    nearby_marked, remesh_handled, saved_chunks_cleaned, LevelView,
};
use crate::math::IVec3;
use crate::mesh::ChunkMesh;
use vstd::prelude::*;

verus! {

/// One step of a level: a call of one of its operations.
pub enum Step {
    MarkNearby { camera: IVec3, horizontal: int, vertical: int },
    BeginGeneration { position: IVec3 },
    CompleteGeneration { position: IVec3, chunk: Chunk },
    FinalizeGeneration,
    RebuildMesh { position: IVec3 },
    HandleRemeshQueue,
    BeginMesh { position: IVec3 },
    CompleteMesh { position: IVec3, mesh: Option<ChunkMesh> },
    AbandonMesh { position: IVec3 },
    ApplyReadyMeshes,
    RemoveFar { camera: IVec3, horizontal: int, vertical: int },
    SaveChunk { position: IVec3 },
    CleanupSaved,
    /// A block was set: the loaded chunks are the same, with one cell of
    /// the chunk at `position` changed, and a new mesh is asked for it.
    SetBlock { position: IVec3, grid: Map<IVec3, Chunk> },
}

/// The level after a step.
pub open spec fn step(v: LevelView, s: Step) -> LevelView {
    match s {
        Step::MarkNearby { camera, horizontal, vertical } => nearby_marked(
            v,
            camera,
            horizontal,
            vertical,
        ),
        Step::BeginGeneration { position } => generation_begun(v, position).0,
        Step::CompleteGeneration { position, chunk } => generation_completed(v, position, chunk).0,
        Step::FinalizeGeneration => generation_finalized(v),
        Step::RebuildMesh { position } => LevelView { remesh: v.remesh.insert(position), ..v },
        Step::HandleRemeshQueue => remesh_handled(v),
        Step::BeginMesh { position } => mesh_begun(v, position).0,
        Step::CompleteMesh { position, mesh } => mesh_completed(v, position, mesh).0,
        Step::AbandonMesh { position } => mesh_abandoned(v, position).0,
        Step::ApplyReadyMeshes => meshes_applied(v),
        Step::RemoveFar { camera, horizontal, vertical } => far_chunks_removed(
            v,
            camera,
            horizontal,
            vertical,
        ),
        Step::SaveChunk { position } => chunk_saved(v, position),
        Step::CleanupSaved => saved_chunks_cleaned(v),
        Step::SetBlock { position, grid } => if v.grid.contains_key(position) && grid.dom()
            == v.grid.dom() {
            LevelView { grid, remesh: v.remesh.insert(position), ..v }
        } else {
            v
        },
    }
}

/// True where a chunk is on its way into the grid at `p`: marked, being
/// generated, or made.
pub open spec fn arriving(v: LevelView, p: IVec3) -> bool {
    v.generation.contains_key(p) && !(v.generation[p] is Removed)
}

/// What holds of every state of a level: a position has at most one chunk,
/// loaded or on its way or evicted, and a mesh is made for loaded chunks
/// only.
pub open spec fn consistent(v: LevelView) -> bool {
    forall|p: IVec3|
        #![trigger v.generation.contains_key(p)]
        #![trigger v.grid.contains_key(p)]
        #![trigger v.removed.contains(p)]
        #![trigger v.meshing.contains_key(p)]
        {
            &&& arriving(v, p) ==> !v.grid.contains_key(p) && !v.removed.contains(p)
            &&& v.removed.contains(p) ==> !v.grid.contains_key(p) && !v.meshing.contains_key(p)
            &&& v.meshing.contains_key(p) ==> v.grid.contains_key(p)
            &&& v.generation.contains_key(p) && v.generation[p] is Removed ==> v.removed.contains(
                p,
            )
        }
}

/// The empty level.
pub open spec fn empty_level() -> LevelView {
    LevelView {
        grid: Map::empty(),
        generation: Map::empty(),
        removed: Set::empty(),
        remesh: Set::empty(),
        meshing: Map::empty(),
        entities: Set::empty(),
    }
}

/// The empty level is consistent.
pub proof fn lemma_empty_level_is_consistent()
    ensures
        consistent(empty_level()),
{
}

/// Every step takes a consistent level to a consistent level.
pub proof fn lemma_step_keeps_consistent(v: LevelView, s: Step)
    requires
        consistent(v),
    ensures
        consistent(step(v, s)),
{
    let w = step(v, s);
    assert forall|p: IVec3|
        #![trigger w.generation.contains_key(p)]
        #![trigger w.grid.contains_key(p)]
        #![trigger w.removed.contains(p)]
        #![trigger w.meshing.contains_key(p)]
        {
            &&& arriving(w, p) ==> !w.grid.contains_key(p) && !w.removed.contains(p)
            &&& w.removed.contains(p) ==> !w.grid.contains_key(p) && !w.meshing.contains_key(p)
            &&& w.meshing.contains_key(p) ==> w.grid.contains_key(p)
            &&& w.generation.contains_key(p) && w.generation[p] is Removed ==> w.removed.contains(
                p,
            )
        } by {
        assert(v.generation.contains_key(p) || !v.generation.contains_key(p));
        assert(v.grid.contains_key(p) || !v.grid.contains_key(p));
        assert(v.removed.contains(p) || !v.removed.contains(p));
        assert(v.meshing.contains_key(p) || !v.meshing.contains_key(p));
        match s {
            Step::SaveChunk { position } => {
                assert(v.removed.contains(position) || !v.removed.contains(position));
            },
            _ => {},
        }
    }
}

/// Of two workers that take the generation of one position, with nothing
/// marked between them, at most one gets it.
pub proof fn lemma_generation_taken_once(v: LevelView, p: IVec3)
    ensures
        !(generation_begun(v, p).1 && generation_begun(generation_begun(v, p).0, p).1),
        generation_begun(v, p).1 ==> generation_begun(v, p).0.generation[p] is Generating,
{
}

/// Of two workers that take the mesh build of one position, with nothing
/// asked between them, at most one gets it.
pub proof fn lemma_mesh_taken_once(v: LevelView, p: IVec3)
    ensures
        !(mesh_begun(v, p).1 && mesh_begun(mesh_begun(v, p).0, p).1),
        mesh_begun(v, p).1 ==> mesh_begun(v, p).0.meshing[p] is MeshBuilding,
{
}

/// Of two results handed in for one generation, the first is taken and the
/// second is dropped.
pub proof fn lemma_generation_completed_once(v: LevelView, p: IVec3, first: Chunk, second: Chunk)
    ensures
        !generation_completed(generation_completed(v, p, first).0, p, second).1
            || !generation_completed(v, p, first).1,
{
}

/// Of two results handed in for one mesh build, the first is taken and the
/// second is dropped.
pub proof fn lemma_mesh_completed_once(
    v: LevelView,
    p: IVec3,
    first: Option<ChunkMesh>,
    second: Option<ChunkMesh>,
)
    ensures
        !mesh_completed(mesh_completed(v, p, first).0, p, second).1 || !mesh_completed(
            v,
            p,
            first,
        ).1,
{
}

/// While a worker generates the chunk at `p`, no step but that worker's
/// handing in takes the generation away from it, and no other worker gets
/// it: at any time at most one worker generates the chunk of a position.
pub proof fn lemma_generation_is_held(v: LevelView, s: Step, p: IVec3)
    requires
        consistent(v),
        v.generation.contains_key(p),
        v.generation[p] is Generating,
        !(s matches Step::CompleteGeneration { position, .. } && position == p),
    ensures
        step(v, s).generation.contains_key(p),
        step(v, s).generation[p] is Generating,
        !generation_begun(v, p).1,
        !generation_begun(step(v, s), p).1,
{
    assert(!v.removed.contains(p));
}

/// While a worker builds the mesh of the chunk at `p`, no step but that
/// worker's handing in or giving up takes the build away from it, and no
/// other worker gets it: at any time at most one worker builds the mesh of
/// a position.
pub proof fn lemma_mesh_build_is_held(v: LevelView, s: Step, p: IVec3)
    requires
        consistent(v),
        v.meshing.contains_key(p),
        v.meshing[p] is MeshBuilding,
        !(s matches Step::CompleteMesh { position, .. } && position == p),
        !(s matches Step::AbandonMesh { position } && position == p),
    ensures
        step(v, s).meshing.contains_key(p),
        step(v, s).meshing[p] is MeshBuilding,
        !mesh_begun(v, p).1,
        !mesh_begun(step(v, s), p).1,
{
    assert(v.grid.contains_key(p));
    assert(!v.removed.contains(p));
}

/// A chunk whose mesh is being built stays loaded, and a position whose
/// chunk is being generated is not evicted: no step takes away what a
/// worker works on.
pub proof fn lemma_work_in_flight_is_not_evicted(v: LevelView, s: Step, p: IVec3)
    requires
        consistent(v),
        v.meshing.contains_key(p),
        v.meshing[p] is MeshBuilding,
    ensures
        step(v, s).grid.contains_key(p),
{
    assert(v.grid.contains_key(p));
    assert(!v.removed.contains(p));
    match s {
        Step::FinalizeGeneration => {
            assert(v.generation.contains_key(p) || !v.generation.contains_key(p));
        },
        _ => {},
    }
}

} // verus!
