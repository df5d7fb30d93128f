use vstd::prelude::*;
use crate::atom::{Atom, default_atom};
use crate::actors::ids_known;
use crate::chunk_manager::{ChunkManager, DirtyRects, atom_index};
use crate::manager_api::{ChunkPos, with_point, with_neighbors, update_dirty_rects, update_dirty_rects_3x3, lemma_with_point_wf, rects_wf};
use crate::materials::Materials;
use crate::player_inv::{Inventory, Item, has_stackable, has_empty};

verus! {

/// The kind of atom the tool shoots when pushing at `cp`: that of the atom
/// item in the selected slot, where the atom at `cp` is loaded and void or an
/// object.
pub open spec fn spec_push_shot(cm: ChunkManager, inventory: Inventory, materials: Materials, cp: ChunkPos) -> Option<u8> {
    match (cm.atom_at(cp), inventory.slots@[inventory.selected as int]) {
        (Some(a), Some(slot)) => if materials.of(a.id).is_void_spec() || materials.of(a.id).is_object_spec() {
            match slot.item {
                Item::Atom(x) => Some(x.id),
                Item::SmartTool => None,
            }
        } else {
            None
        },
        _ => None,
    }
}

/// The kind of atom the tool shoots when pushing at `chunk_pos`, if it shoots
/// one (which then leaves the selected slot).
pub fn push_shot(chunk_manager: &ChunkManager, inventory: &Inventory, materials: &Materials, chunk_pos: ChunkPos) -> (id: Option<u8>)
    requires
        chunk_manager.wf(),
        ids_known(*chunk_manager, *materials),
        chunk_pos.wf(),
        inventory.selected < 32,
    ensures
        id == spec_push_shot(*chunk_manager, *inventory, *materials, chunk_pos),
{
    let atom = match chunk_manager.get_atom(&chunk_pos) {
        Some(a) => {
            proof {
                let k = crate::math::key_of(chunk_pos.chunk);
                assert(chunk_manager.world()[k][atom_index(chunk_pos)] == *a);
            }
            *a
        },
        None => {
            return None;
        },
    };
    let slot = match inventory.slots[inventory.selected] {
        Some(s) => s,
        None => {
            return None;
        },
    };
    let m = materials.get_from_atom(&atom);
    if m.is_void() || m.is_object() {
        match slot.item {
            Item::Atom(a) => Some(a.id),
            Item::SmartTool => None,
        }
    } else {
        None
    }
}

/// The tool pulls the atom at `cp`: it is loaded, neither void nor an object,
/// and the inventory can take it.
pub open spec fn pullable(cm: ChunkManager, inventory: Inventory, materials: Materials, cp: ChunkPos) -> bool {
    match cm.atom_at(cp) {
        Some(a) => !materials.of(a.id).is_void_spec() && !materials.of(a.id).is_object_spec() && (has_stackable(
            inventory.slots@,
            Item::Atom(a),
        ) || has_empty(inventory.slots@)),
        None => false,
    }
}

/// Pulls the atom at `chunk_pos` where the tool can: it is taken out of the
/// world, leaving the empty atom, and returned (to fly to the player).
pub fn pull_at(chunk_manager: &mut ChunkManager, inventory: &Inventory, materials: &Materials, chunk_pos: ChunkPos) -> (taken: Option<Atom>)
    requires
        old(chunk_manager).wf(),
        ids_known(*old(chunk_manager), *materials),
        chunk_pos.wf(),
        materials.0.len() > 0,
    ensures
        pullable(*old(chunk_manager), *inventory, *materials, chunk_pos) ==> ({
            let k = crate::math::key_of(chunk_pos.chunk);
            &&& taken == old(chunk_manager).atom_at(chunk_pos)
            &&& final(chunk_manager).world() == old(chunk_manager).world().insert(
                k,
                old(chunk_manager).world()[k].update(atom_index(chunk_pos), default_atom()),
            )
        }),
        !pullable(*old(chunk_manager), *inventory, *materials, chunk_pos) ==> taken is None
            && final(chunk_manager).chunks@ == old(chunk_manager).chunks@,
        final(chunk_manager).wf(),
        ids_known(*final(chunk_manager), *materials),
        final(chunk_manager).chunks@.dom() == old(chunk_manager).chunks@.dom(),
        final(chunk_manager).pos == old(chunk_manager).pos,
        final(chunk_manager).dt == old(chunk_manager).dt,
{
    let atom = match chunk_manager.get_atom(&chunk_pos) {
        Some(a) => {
            proof {
                let k = crate::math::key_of(chunk_pos.chunk);
                assert(chunk_manager.world()[k][atom_index(chunk_pos)] == *a);
            }
            *a
        },
        None => {
            return None;
        },
    };
    let m = materials.get_from_atom(&atom);
    if !m.is_void() && !m.is_object() && inventory.can_add(Item::Atom(atom)) {
        let ghost before = chunk_manager.world();
        chunk_manager.set_atom(chunk_pos, Atom::default());
        proof {
            let k = crate::math::key_of(chunk_pos.chunk);
            assert forall|k2: (i32, i32), j: int|
                chunk_manager.world().contains_key(k2) && 0 <= j < chunk_manager.world()[k2].len()
                    implies (#[trigger] chunk_manager.world()[k2][j]).id < materials.0.len() by {
                if k2 == k && j == atom_index(chunk_pos) {
                } else {
                    assert(chunk_manager.world()[k2][j] == before[k2][j]);
                }
            }
        }
        Some(atom)
    } else {
        None
    }
}

/// Law: the tool shoots only into a loaded place whose atom is void or an
/// object, and what it shoots is the kind of the atom item in the selected
/// slot; where both hold, it does shoot. A place holding a liquid, a powder or
/// a solid is never shot into.
pub proof fn law_push_shot_targets(cm: ChunkManager, inventory: Inventory, materials: Materials, cp: ChunkPos)
    ensures
        ({
            let r = spec_push_shot(cm, inventory, materials, cp);
            let place = cm.atom_at(cp);
            let slot = inventory.slots@[inventory.selected as int];
            let open_place = place is Some && (materials.of(place.unwrap().id).is_void_spec() || materials.of(
                place.unwrap().id,
            ).is_object_spec());
            let atom_slot = slot is Some && slot.unwrap().item is Atom;
            &&& r is Some ==> open_place && atom_slot && r.unwrap() == slot.unwrap().item->Atom_0.id
            &&& !open_place ==> r is None
            &&& open_place && atom_slot ==> r == Some(slot.unwrap().item->Atom_0.id)
        }),
{
}

/// Law: the tool pulls exactly the loaded atoms that are neither void nor
/// an object, whatever their state (solids included), when the inventory
/// can take them: with an empty slot it always can.
pub proof fn law_pull_takes(cm: ChunkManager, inventory: Inventory, materials: Materials, cp: ChunkPos)
    ensures
        ({
            let place = cm.atom_at(cp);
            let takeable = place is Some && !materials.of(place.unwrap().id).is_void_spec() && !materials.of(
                place.unwrap().id,
            ).is_object_spec();
            &&& pullable(cm, inventory, materials, cp) ==> takeable
            &&& takeable && has_empty(inventory.slots@) ==> pullable(cm, inventory, materials, cp)
            &&& takeable && has_stackable(inventory.slots@, Item::Atom(place.unwrap())) ==> pullable(
                cm,
                inventory,
                materials,
                cp,
            )
        }),
{
}

/// The update rectangles once the 3x3 squares around the first `n`
/// positions are marked.
pub open spec fn squares_marked(m: Map<(i32, i32), crate::math::URect>, ps: Seq<ChunkPos>, n: nat) -> Map<
    (i32, i32),
    crate::math::URect,
>
    decreases n,
{
    if n == 0 {
        m
    } else {
        with_neighbors(squares_marked(m, ps, (n - 1) as nat), ps[n - 1], 9)
    }
}

/// The render rectangles once the first `n` positions are marked.
pub open spec fn points_marked(m: Map<(i32, i32), crate::math::URect>, ps: Seq<ChunkPos>, n: nat) -> Map<
    (i32, i32),
    crate::math::URect,
>
    decreases n,
{
    if n == 0 {
        m
    } else {
        with_point(points_marked(m, ps, (n - 1) as nat), ps[n - 1])
    }
}

/// Marks the places the tool pulled atoms from: the update rectangles around
/// each, and the render rectangle at each.
pub fn mark_pulled(dirty_rects: &mut DirtyRects, positions: &Vec<ChunkPos>)
    requires
        old(dirty_rects).wf(),
        forall|i: int| 0 <= i < positions@.len() ==> (#[trigger] positions@[i]).wf() && positions@[i].in_range(),
    ensures
        final(dirty_rects).current@ == squares_marked(old(dirty_rects).current@, positions@, positions@.len()),
        final(dirty_rects).render@ == points_marked(old(dirty_rects).render@, positions@, positions@.len()),
        final(dirty_rects).new@ == old(dirty_rects).new@,
        final(dirty_rects).wf(),
{
    let mut i: usize = 0;
    while i < positions.len()
        invariant
            i <= positions@.len(),
            forall|k: int| 0 <= k < positions@.len() ==> (#[trigger] positions@[k]).wf() && positions@[k].in_range(),
            dirty_rects.wf(),
            dirty_rects.current@ == squares_marked(old(dirty_rects).current@, positions@, i as nat),
            dirty_rects.render@ == points_marked(old(dirty_rects).render@, positions@, i as nat),
            dirty_rects.new@ == old(dirty_rects).new@,
        decreases positions@.len() - i,
    {
        let pos = positions[i];
        assert(pos.wf() && pos.in_range());
        update_dirty_rects_3x3(&mut dirty_rects.current, pos);
        proof {
            lemma_with_point_wf(dirty_rects.render@, pos);
        }
        update_dirty_rects(&mut dirty_rects.render, pos);
        i += 1;
    }
}

} // verus!
