use vstd::prelude::*;
use crate::atom::Atom;
use crate::actors::{ids_known, atom_at_global};
use crate::chunk_manager::{ChunkManager, DirtyRects, atom_index};
use crate::manager_api::{ChunkPos, global_to_chunk, chunk_pos_at, global_coord_ok, with_point, with_neighbors, update_dirty_rects, update_dirty_rects_3x3};
use crate::materials::Materials;
use crate::math::IVec2;

verus! {

/// Particle State
#[derive(Clone, Copy, Debug, PartialEq, Eq, Structural)]
pub enum PartState {
    //Used when the particle is looking for a place to put itself
    Looking,
    Normal,
    //Used when following a entity transform (the entity, by its bits)
    Follow(u64),
}

impl Default for PartState {
    fn default() -> (s: PartState)
        ensures
            s == PartState::Normal,
    {
        PartState::Normal
    }
}

/// Marks a particle that has its sprite.
pub struct Hydrated;

/// What happens to a particle at the end of a frame: it is removed, and,
/// where `remove` holds a position and an atom, put back in the world there.
#[derive(Clone, Copy, Debug)]
pub struct DeferredParticleUpdate {
    pub ent: u64,
    pub remove: Option<(ChunkPos, Atom)>,
}

/// The update puts its atom back: it has a position, and the atom there is
/// loaded and void.
pub open spec fn places(cm: ChunkManager, materials: Materials, update: DeferredParticleUpdate) -> bool {
    match update.remove {
        Some((cp, _)) => match cm.atom_at(cp) {
            Some(a) => materials.of(a.id).is_void_spec(),
            None => false,
        },
        None => false,
    }
}

/// Law: a particle becomes an atom again only where the atom at its
/// position is loaded and void; where that atom is anything else (a liquid,
/// a powder, a solid, an object), it is not placed, so the world is left as
/// it was and the particle stays.
pub proof fn law_particle_lands_on_void(cm: ChunkManager, materials: Materials, update: DeferredParticleUpdate)
    ensures
        ({
            let place = match update.remove {
                Some((cp, _)) => cm.atom_at(cp),
                None => None,
            };
            let void_place = place is Some && materials.of(place.unwrap().id).is_void_spec();
            places(cm, materials, update) <==> void_place
        }),
{
}

/// Handles the end of a particle. One that only leaves is despawned. One
/// that is to become an atom again becomes it where the atom at its position
/// is void, marks the render rectangle there and the update rectangles around
/// it, and is despawned; elsewhere it stays, and nothing changes. Returns
/// whether the particle is to be despawned.
pub fn apply_particle_update(
    chunk_manager: &mut ChunkManager,
    dirty_rects: &mut DirtyRects,
    materials: &Materials,
    update: &DeferredParticleUpdate,
) -> (despawn: bool)
    requires
        old(chunk_manager).wf(),
        ids_known(*old(chunk_manager), *materials),
        old(dirty_rects).wf(),
        match update.remove {
            Some((cp, _)) => cp.wf() && cp.in_range(),
            None => true,
        },
    ensures
        despawn == (update.remove is None || places(*old(chunk_manager), *materials, *update)),
        places(*old(chunk_manager), *materials, *update) ==> ({
            let (cp, atom) = update.remove.unwrap();
            let k = crate::math::key_of(cp.chunk);
            &&& final(chunk_manager).world() == old(chunk_manager).world().insert(
                k,
                old(chunk_manager).world()[k].update(atom_index(cp), atom),
            )
            &&& final(dirty_rects).render@ == with_point(old(dirty_rects).render@, cp)
            &&& final(dirty_rects).current@ == with_neighbors(old(dirty_rects).current@, cp, 9)
            &&& (atom.id as int) < materials.0.len() ==> ids_known(*final(chunk_manager), *materials)
        }),
        !places(*old(chunk_manager), *materials, *update) ==> final(chunk_manager).chunks@ == old(
            chunk_manager,
        ).chunks@ && final(dirty_rects).render@ == old(dirty_rects).render@ && final(dirty_rects).current@ == old(
            dirty_rects,
        ).current@,
        final(dirty_rects).new@ == old(dirty_rects).new@,
        final(dirty_rects).wf(),
        final(chunk_manager).wf(),
        final(chunk_manager).chunks@.dom() == old(chunk_manager).chunks@.dom(),
        final(chunk_manager).pos == old(chunk_manager).pos,
        final(chunk_manager).dt == old(chunk_manager).dt,
{
    match update.remove {
        Some((chunk_pos, update_atom)) => {
            let mut change_atom = false;
            if let Some(atom) = chunk_manager.get_atom(&chunk_pos) {
                proof {
                    let k = crate::math::key_of(chunk_pos.chunk);
                    assert(chunk_manager.world()[k][atom_index(chunk_pos)] == *atom);
                }
                if materials.get_from_atom(atom).is_void() {
                    change_atom = true;
                }
            }
            if change_atom {
                chunk_manager.set_atom(chunk_pos, update_atom);
                update_dirty_rects(&mut dirty_rects.render, chunk_pos);
                proof {
                    crate::manager_api::lemma_with_point_wf(old(dirty_rects).render@, chunk_pos);
                }
                update_dirty_rects_3x3(&mut dirty_rects.current, chunk_pos);
                proof {
                    let (cp, atom) = update.remove.unwrap();
                    let k = crate::math::key_of(cp.chunk);
                    if (atom.id as int) < materials.0.len() {
                        assert forall|k2: (i32, i32), j: int|
                            chunk_manager.world().contains_key(k2) && 0 <= j < chunk_manager.world()[k2].len()
                                implies (#[trigger] chunk_manager.world()[k2][j]).id < materials.0.len() by {
                            if k2 == k && j == atom_index(cp) {
                            } else {
                                assert(chunk_manager.world()[k2][j] == old(chunk_manager).world()[k2][j]);
                            }
                        }
                    }
                }
                true
            } else {
                false
            }
        },
        None => true,
    }
}

/// Whether the atom at global position `p` is loaded and void.
pub open spec fn void_at(cm: ChunkManager, materials: Materials, p: IVec2) -> bool {
    match atom_at_global(cm, p.x as int, p.y as int) {
        Some(a) => materials.of(a.id).is_void_spec(),
        None => false,
    }
}

/// Whether the atom at global position `p` is loaded.
pub open spec fn loaded_at(cm: ChunkManager, p: IVec2) -> bool {
    atom_at_global(cm, p.x as int, p.y as int) is Some
}

/// Whether the chunk of global position `p` is loaded.
pub fn is_loaded(cm: &ChunkManager, p: IVec2) -> (b: bool)
    requires
        global_coord_ok(p.x as int),
        global_coord_ok(p.y as int),
    ensures
        b == loaded_at(*cm, p),
{
    let cp = global_to_chunk(p);
    cm.get_atom(&cp).is_some()
}

/// The outcome of moving a particle along its path this frame.
#[derive(Clone, Copy, Debug, PartialEq, Eq, Structural)]
pub enum ParticleStep {
    /// The path is free: the particle goes to its end.
    Free,
    /// The particle becomes an atom again at this position.
    Place(ChunkPos),
    /// The particle hit something and cannot be put back before it: it
    /// starts looking for a free place, warping upwards.
    StartLooking,
}

/// Where the particle stops at the `i`-th position of its path, if it does:
/// a falling particle stops at the first atom that is not void, and is put
/// back just before it where that place is void; a looking particle is put
/// back at the first position whose predecessor is void.
pub open spec fn stop_at(
    cm: ChunkManager,
    materials: Materials,
    looking: bool,
    start: IVec2,
    path: Seq<IVec2>,
    i: int,
) -> Option<ParticleStep> {
    let prev = if i == 0 { start } else { path[i - 1] };
    if !looking && !void_at(cm, materials, path[i]) {
        Some(
            if void_at(cm, materials, prev) {
                ParticleStep::Place(chunk_pos_at(prev.x as int, prev.y as int))
            } else {
                ParticleStep::StartLooking
            },
        )
    } else if looking && void_at(cm, materials, prev) {
        Some(ParticleStep::Place(chunk_pos_at(path[i].x as int, path[i].y as int)))
    } else {
        None
    }
}

/// The particle goes past the first `n` positions of its path.
pub open spec fn passes(
    cm: ChunkManager,
    materials: Materials,
    looking: bool,
    start: IVec2,
    path: Seq<IVec2>,
    n: int,
) -> bool {
    forall|j: int| 0 <= j < n ==> #[trigger] stop_at(cm, materials, looking, start, path, j) is None
}

/// Moves a particle that falls (`looking` false) or looks for a place
/// (`looking` true) from `start` along the positions of `path`, and tells
/// where it stops.
pub fn particle_path_step(
    chunk_manager: &ChunkManager,
    materials: &Materials,
    looking: bool,
    start: IVec2,
    path: &Vec<IVec2>,
) -> (step: ParticleStep)
    requires
        chunk_manager.wf(),
        ids_known(*chunk_manager, *materials),
        global_coord_ok(start.x as int),
        global_coord_ok(start.y as int),
        loaded_at(*chunk_manager, start),
        forall|i: int|
            0 <= i < path@.len() ==> global_coord_ok((#[trigger] path@[i]).x as int) && global_coord_ok(
                path@[i].y as int,
            ),
        forall|i: int|
            0 <= i < path@.len() && passes(*chunk_manager, *materials, looking, start, path@, i) ==> loaded_at(
                *chunk_manager,
                #[trigger] path@[i],
            ),
    ensures
        step == ParticleStep::Free <==> passes(*chunk_manager, *materials, looking, start, path@, path@.len() as int),
        step != ParticleStep::Free ==> exists|i: int|
            0 <= i < path@.len() && passes(*chunk_manager, *materials, looking, start, path@, i) && #[trigger] stop_at(
                *chunk_manager,
                *materials,
                looking,
                start,
                path@,
                i,
            ) == Some(step),
{
    let mut prev_pos = start;
    let mut i: usize = 0;
    while i < path.len()
        invariant
            i <= path@.len(),
            chunk_manager.wf(),
            ids_known(*chunk_manager, *materials),
            prev_pos == if i == 0 { start } else { path@[i - 1] },
            global_coord_ok(start.x as int),
            global_coord_ok(start.y as int),
            loaded_at(*chunk_manager, start),
            forall|k: int|
                0 <= k < path@.len() ==> global_coord_ok((#[trigger] path@[k]).x as int) && global_coord_ok(
                    path@[k].y as int,
                ),
            forall|k: int|
                0 <= k < path@.len() && passes(*chunk_manager, *materials, looking, start, path@, k) ==> loaded_at(
                    *chunk_manager,
                    #[trigger] path@[k],
                ),
            passes(*chunk_manager, *materials, looking, start, path@, i as int),
        decreases path@.len() - i,
    {
        let pos = path[i];
        let chunk_pos = global_to_chunk(pos);
        let prev_chunk_pos = global_to_chunk(prev_pos);
        assert(loaded_at(*chunk_manager, pos));
        assert(loaded_at(*chunk_manager, prev_pos));
        let atom_void = match chunk_manager.get_atom(&chunk_pos) {
            Some(atom) => {
                proof {
                    let k = crate::math::key_of(chunk_pos.chunk);
                    assert(chunk_manager.world()[k][atom_index(chunk_pos)] == *atom);
                }
                materials.get_from_atom(atom).is_void()
            },
            None => false,
        };
        let prev_void = match chunk_manager.get_atom(&prev_chunk_pos) {
            Some(atom) => {
                proof {
                    let k = crate::math::key_of(prev_chunk_pos.chunk);
                    assert(chunk_manager.world()[k][atom_index(prev_chunk_pos)] == *atom);
                }
                materials.get_from_atom(atom).is_void()
            },
            None => false,
        };
        assert(atom_void == void_at(*chunk_manager, *materials, pos));
        assert(prev_void == void_at(*chunk_manager, *materials, prev_pos));
        if !looking && !atom_void {
            //Hit something!
            let step = if prev_void {
                ParticleStep::Place(prev_chunk_pos)
            } else {
                ParticleStep::StartLooking
            };
            assert(stop_at(*chunk_manager, *materials, looking, start, path@, i as int) == Some(step));
            return step;
        } else if looking && prev_void {
            assert(stop_at(*chunk_manager, *materials, looking, start, path@, i as int) == Some(
                ParticleStep::Place(chunk_pos),
            ));
            return ParticleStep::Place(chunk_pos);
        }
        assert(stop_at(*chunk_manager, *materials, looking, start, path@, i as int) is None);
        prev_pos = pos;
        i += 1;
    }
    ParticleStep::Free
}

/// Whether a global position lies in the loaded area of a manager at
/// `manager_pos`, `width` by `height` chunks.
pub open spec fn spec_in_loaded_area(manager_pos: IVec2, p: IVec2) -> bool {
    manager_pos.x * 64 <= p.x < (manager_pos.x + crate::consts::LOAD_WIDTH) * 64 && manager_pos.y * 64 <= p.y
        < (manager_pos.y + crate::consts::LOAD_HEIGHT) * 64
}

/// Whether a global position lies in the loaded area; particles that leave it
/// are removed.
pub fn in_loaded_area(manager_pos: IVec2, p: IVec2) -> (b: bool)
    requires
        i32::MIN <= manager_pos.x * 64,
        (manager_pos.x + crate::consts::LOAD_WIDTH) * 64 <= i32::MAX,
        i32::MIN <= manager_pos.y * 64,
        (manager_pos.y + crate::consts::LOAD_HEIGHT) * 64 <= i32::MAX,
    ensures
        b == spec_in_loaded_area(manager_pos, p),
{
    let x0 = manager_pos.x * 64;
    let x1 = (manager_pos.x + crate::consts::LOAD_WIDTH) * 64;
    let y0 = manager_pos.y * 64;
    let y1 = (manager_pos.y + crate::consts::LOAD_HEIGHT) * 64;
    x0 <= p.x && p.x < x1 && y0 <= p.y && p.y < y1
}

} // verus!
