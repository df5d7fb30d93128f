use vstd::prelude::*;
use crate::atom::Atom;
use crate::chunk_group::{ChunkGroup, local_of, global_to_local, local_ok, near_center, accessible};
use crate::manager_api::{tdiv, tmod};
use crate::manager_api::{ChunkPos, DeferredDirtyRectUpdate};
use crate::materials::{Material, Materials};
use crate::math::{IVec2, UVec2, ivec2, uvec2};
use rand::Rng;

verus! {

/// What an update step works on: a chunk group, the dirty rectangles it asks
/// for (to update, and to render), and the materials.
pub struct UpdateChunksType {
    pub group: ChunkGroup,
    pub dirty_update_rects: Vec<DeferredDirtyRectUpdate>,
    pub dirty_render_rects: Vec<DeferredDirtyRectUpdate>,
    pub materials: Materials,
}

/// Bound on the centre chunk of a group, so that its neighbours and their
/// neighbours have coordinates that `update_dirty_rects_3x3` accepts.
pub open spec fn center_ok(c: IVec2) -> bool {
    -33554429 <= c.x <= 33554429 && -33554429 <= c.y <= 33554429
}

/// Every atom that the group holds has a material.
pub open spec fn ids_ok(g: ChunkGroup, materials: Materials) -> bool {
    forall|i: int, k: int|
        0 <= i < 9 && g.region(i) is Some && 0 <= k < g.region(i).unwrap().len()
            ==> (#[trigger] g.region(i).unwrap()[k]).id < materials.0.len()
}

/// A message asks for a position inside a chunk that the dirty rectangle
/// functions accept.
pub open spec fn msgs_ok(msgs: Seq<DeferredDirtyRectUpdate>) -> bool {
    forall|j: int| 0 <= j < msgs.len() ==> (#[trigger] msgs[j]).chunk_pos.wf() && msgs[j].chunk_pos.in_range()
}

impl UpdateChunksType {
    pub open spec fn wf(self) -> bool {
        &&& self.group.wf()
        &&& ids_ok(self.group, self.materials)
        &&& center_ok(self.group.center_pos)
        &&& msgs_ok(self.dirty_update_rects@)
        &&& msgs_ok(self.dirty_render_rects@)
    }

    /// The atom at global position `p` (in `0..192`), if the group holds it.
    pub open spec fn at(self, p: IVec2) -> Option<Atom> {
        self.group.atom_at(local_of(p))
    }

    /// The group holds the atom at global position `p`.
    pub open spec fn has(self, p: IVec2) -> bool {
        0 <= p.x < 192 && 0 <= p.y < 192 && accessible(local_of(p).0, local_of(p).1 as int)
            && self.at(p) is Some
    }

    /// The material of the atom at global position `p`.
    pub open spec fn material_at(self, p: IVec2) -> Material {
        self.materials.of(self.at(p).unwrap().id)
    }
}

/// A global position that the group may be asked about without panicking.
pub open spec fn pos_ok(chunks: UpdateChunksType, p: IVec2) -> bool {
    0 <= p.x < 192 && 0 <= p.y < 192 && local_ok(chunks.group, local_of(p))
}

/// Positions within 32 atoms of the centre may always be asked about.
pub proof fn lemma_near_center_ok(chunks: UpdateChunksType, p: IVec2)
    requires
        near_center(p),
    ensures
        pos_ok(chunks, p),
        accessible(local_of(p).0, local_of(p).1 as int),
{
}

/// An atom the group holds has a material.
pub proof fn lemma_id_ok(chunks: UpdateChunksType, p: IVec2)
    requires
        chunks.wf(),
        chunks.has(p),
    ensures
        (chunks.at(p).unwrap().id as int) < chunks.materials.0.len(),
{
    let (lp, i) = local_of(p);
    let k = crate::chunk_group::slot(lp, i as int);
    crate::chunk_group::law_near_center_accessible(p);
    assert(0 <= k < chunks.group.region(i as int).unwrap().len()) by {
        crate::chunk_group::lemma_region_bijection(i as int);
        let j = lp.y * 64 + lp.x;
        assert(crate::chunk_group::in_region(i as int, j)) by {
            vstd::arithmetic::div_mod::lemma_fundamental_div_mod_converse(j, 64, lp.y as int, lp.x as int);
        }
        assert(crate::chunk_group::region_pos(i as int, j) == k) by {
            vstd::arithmetic::div_mod::lemma_fundamental_div_mod_converse(j, 64, lp.y as int, lp.x as int);
        }
    }
    assert(chunks.group.region(i as int).unwrap()[k] == chunks.at(p).unwrap());
}

/// Gets material from a global pos
pub fn get_material(chunks: &UpdateChunksType, pos: IVec2) -> (m: Material)
    requires
        chunks.wf(),
        chunks.has(pos),
    ensures
        m == chunks.material_at(pos),
{
    proof {
        lemma_id_ok(*chunks, pos);
    }
    let atom = chunks.group.get_global(pos);
    match atom {
        Some(a) => *chunks.materials.get_from_id(a.id),
        None => {
            proof {
                assert(false);
            }
            Material { flow: 0, default_state: crate::materials::AtomState::Void }
        },
    }
}

} // verus!

verus! {

impl UpdateChunksType {
    /// The atoms the group holds, by global position.
    pub open spec fn world(self) -> Map<IVec2, Atom> {
        Map::new(|p: IVec2| self.has(p), |p: IVec2| self.at(p).unwrap())
    }
}

/// Two accessible local positions stored at the same place are the same.
proof fn lemma_slot_injective(a: IVec2, b: IVec2, i: int)
    requires
        accessible(a, i),
        accessible(b, i),
        crate::chunk_group::slot(a, i) == crate::chunk_group::slot(b, i),
    ensures
        a == b,
{
    let w = crate::chunk_group::region_width(i);
    let ax = a.x - crate::chunk_group::region_x0(i);
    let ay = a.y - crate::chunk_group::region_y0(i);
    let bx = b.x - crate::chunk_group::region_x0(i);
    let by = b.y - crate::chunk_group::region_y0(i);
    vstd::arithmetic::div_mod::lemma_fundamental_div_mod_converse(ay * w + ax, w, ay, ax);
    vstd::arithmetic::div_mod::lemma_fundamental_div_mod_converse(by * w + bx, w, by, bx);
}

/// An accessible local position is stored inside its region.
pub proof fn lemma_slot_bound(a: IVec2, i: int)
    requires
        accessible(a, i),
    ensures
        0 <= crate::chunk_group::slot(a, i) < crate::chunk_group::region_len(i),
{
    let w = crate::chunk_group::region_width(i);
    let h = crate::chunk_group::region_height(i);
    let ax = a.x - crate::chunk_group::region_x0(i);
    let ay = a.y - crate::chunk_group::region_y0(i);
    assert(0 <= ay * w + ax < h * w) by (nonlinear_arith)
        requires
            0 <= ax < w,
            0 <= ay < h,
    ;
}

/// Replacing the atom at `p` changes the atom at `p` only.
#[verifier::spinoff_prover]
proof fn lemma_put_world(old_c: UpdateChunksType, new_c: UpdateChunksType, p: IVec2, atom: Atom)
    requires
        old_c.wf(),
        old_c.has(p),
        new_c.group.regions() == old_c.group.with_atom(local_of(p), atom),
        new_c.group.wf(),
    ensures
        new_c.world() == old_c.world().insert(p, atom),
{
    let lp = local_of(p);
    let ip = lp.1 as int;
    crate::chunk_group::law_local_global_roundtrip(p);
    lemma_slot_bound(lp.0, ip);
    assert forall|q: IVec2| #[trigger] new_c.has(q) == old_c.has(q) && (new_c.has(q) ==> new_c.at(q).unwrap() == (
    if q == p {
        atom
    } else {
        old_c.at(q).unwrap()
    })) by {
        let lq = local_of(q);
        let iq = lq.1 as int;
        if 0 <= q.x < 192 && 0 <= q.y < 192 {
            crate::chunk_group::law_local_global_roundtrip(q);
            assert(new_c.group.region(iq) == new_c.group.regions()[iq]);
            assert(old_c.group.region(iq) == old_c.group.regions()[iq]);
            if iq == ip {
                assert(new_c.group.region(iq) == Some(old_c.group.region(ip).unwrap().update(
                    crate::chunk_group::slot(lp.0, ip), atom)));
                if accessible(lq.0, iq) {
                    if crate::chunk_group::slot(lq.0, iq) == crate::chunk_group::slot(lp.0, ip) {
                        lemma_slot_injective(lq.0, lp.0, iq);
                        assert(q == p);
                    }
                }
            }
        }
    }
    assert(new_c.world() =~= old_c.world().insert(p, atom));
}

/// The atom at global position `p`, which the group holds.
pub fn atom_of(chunks: &UpdateChunksType, p: IVec2) -> (a: Atom)
    requires
        chunks.wf(),
        chunks.has(p),
    ensures
        a == chunks.world()[p],
{
    match chunks.group.get_global(p) {
        Some(a) => *a,
        None => {
            proof {
                assert(false);
            }
            Atom::default()
        },
    }
}

/// Replaces the atom at global position `p`, which the group holds.
pub fn put(chunks: &mut UpdateChunksType, p: IVec2, atom: Atom)
    requires
        old(chunks).wf(),
        old(chunks).has(p),
        (atom.id as int) < old(chunks).materials.0.len(),
    ensures
        final(chunks).wf(),
        final(chunks).world() == old(chunks).world().insert(p, atom),
        final(chunks).materials == old(chunks).materials,
        final(chunks).group.center_pos == old(chunks).group.center_pos,
        final(chunks).dirty_update_rects == old(chunks).dirty_update_rects,
        final(chunks).dirty_render_rects == old(chunks).dirty_render_rects,
{
    let ghost old_c = *chunks;
    let b = chunks.group.set_global(p, atom);
    proof {
        lemma_put_world(old_c, *chunks, p, atom);
        let lp = local_of(p);
        assert forall|i: int, k: int|
            0 <= i < 9 && chunks.group.region(i) is Some && 0 <= k < chunks.group.region(i).unwrap().len()
            implies (#[trigger] chunks.group.region(i).unwrap()[k]).id < chunks.materials.0.len() by {
            assert(chunks.group.region(i) == chunks.group.regions()[i]);
            assert(old_c.group.region(i) == old_c.group.regions()[i]);
        }
    }
}

} // verus!

verus! {

/// Gets speed from a global pos
pub fn get_speed(chunks: &UpdateChunksType, pos: IVec2) -> (s: u8)
    requires
        chunks.wf(),
        chunks.has(pos),
    ensures
        s == chunks.world()[pos].speed.1 as u8,
{
    atom_of(chunks, pos).speed.1 as u8
}

/// Sets speed from a global pos
pub fn set_speed(chunks: &mut UpdateChunksType, pos: IVec2, speed: u8)
    requires
        old(chunks).wf(),
        old(chunks).has(pos),
    ensures
        final(chunks).wf(),
        final(chunks).world() == old(chunks).world().insert(
            pos,
            Atom { speed: (old(chunks).world()[pos].speed.0, speed as i8), ..old(chunks).world()[pos] },
        ),
        final(chunks).materials == old(chunks).materials,
        final(chunks).group.center_pos == old(chunks).group.center_pos,
        final(chunks).dirty_update_rects == old(chunks).dirty_update_rects,
        final(chunks).dirty_render_rects == old(chunks).dirty_render_rects,
{
    let mut atom = atom_of(chunks, pos);
    proof {
        lemma_id_ok(*chunks, pos);
    }
    atom.speed.1 = speed as i8;
    put(chunks, pos, atom);
}

/// Gets velocity from a global pos
pub fn get_vel(chunks: &UpdateChunksType, pos: IVec2) -> (v: IVec2)
    requires
        chunks.wf(),
        chunks.has(pos),
    ensures
        v.x == chunks.world()[pos].speed.0 as i32,
        v.y == chunks.world()[pos].speed.1 as i32,
{
    let atom = atom_of(chunks, pos);
    ivec2(atom.speed.0 as i32, atom.speed.1 as i32)
}

/// Sets velocity from a global pos; each coordinate is truncated to an `i8`.
pub fn set_vel(chunks: &mut UpdateChunksType, pos: IVec2, vel: IVec2)
    requires
        old(chunks).wf(),
        old(chunks).has(pos),
    ensures
        final(chunks).wf(),
        final(chunks).world() == old(chunks).world().insert(
            pos,
            Atom { speed: (vel.x as i8, vel.y as i8), ..old(chunks).world()[pos] },
        ),
        final(chunks).materials == old(chunks).materials,
        final(chunks).group.center_pos == old(chunks).group.center_pos,
        final(chunks).dirty_update_rects == old(chunks).dirty_update_rects,
        final(chunks).dirty_render_rects == old(chunks).dirty_render_rects,
{
    let mut atom = atom_of(chunks, pos);
    proof {
        lemma_id_ok(*chunks, pos);
    }
    atom.speed.0 = vel.x as i8;
    atom.speed.1 = vel.y as i8;
    put(chunks, pos, atom);
}

/// Gets if atom is moving
pub fn get_moving(chunks: &UpdateChunksType, pos: IVec2) -> (b: bool)
    requires
        chunks.wf(),
        chunks.has(pos),
    ensures
        b == chunks.world()[pos].moving,
{
    atom_of(chunks, pos).moving
}

/// Checks if atom is able to update this frame from a global pos
pub fn dt_updatable(chunks: &UpdateChunksType, pos: IVec2, dt: u8) -> (b: bool)
    requires
        chunks.wf(),
        pos_ok(*chunks, pos),
    ensures
        b == (chunks.world().contains_key(pos) && (chunks.world()[pos].updated_at != dt
            || chunks.materials.of(chunks.world()[pos].id).is_void_spec())),
{
    if let Some(atom) = chunks.group.get_global(pos) {
        proof {
            assert(chunks.has(pos));
            lemma_id_ok(*chunks, pos);
        }
        atom.updated_at != dt || chunks.materials.get_from_id(atom.id).is_void()
    } else {
        false
    }
}

} // verus!

verus! {

/// `rand::Rng::random_range` on the thread generator for `u16`: a value drawn
/// from `0..n`. Which value comes out is left open; that it lies in the range
/// is what rand documents.
#[verifier::external_body]
pub(crate) fn random_below(n: u16) -> (r: u16)
    requires
        0 < n,
    ensures
        r < n,
{
    rand::rng().random_range(0..n)
}

/// `rand::Rng::random::<bool>` on the thread generator: a coin flip. Nothing
/// is promised of the outcome.
#[verifier::external_body]
pub(crate) fn random_bool() -> (b: bool) {
    rand::rng().random()
}

/// The atom at `pos` may always be swapped with an atom of `material`: it is
/// void, or it is an object and `material` a liquid.
pub open spec fn swap_certain(chunks: UpdateChunksType, pos: IVec2, material: Material) -> bool {
    chunks.world().contains_key(pos) && {
        let m = chunks.materials.of(chunks.world()[pos].id);
        m.is_void_spec() || (m.is_object_spec() && material.is_liquid_spec())
    }
}

/// The atom at `pos` may be swapped with an atom of `material`: it may
/// always be, or it has not been updated at `dt` and `ids` gives its id a
/// chance above zero (in thousandths).
pub open spec fn swap_possible(
    chunks: UpdateChunksType,
    pos: IVec2,
    ids: Seq<(u8, u16)>,
    material: Material,
    dt: u8,
) -> bool {
    swap_certain(chunks, pos, material) || (chunks.world().contains_key(pos)
        && chunks.world()[pos].updated_at != dt && exists|j: int|
        0 <= j < ids.len() && (#[trigger] ids[j]).0 == chunks.world()[pos].id && ids[j].1 > 0)
}

/// Whether the atom at `pos` gives way to an atom of `material`, where
/// `draws[j]` is the number drawn from `0..1000` for the entry `ids[j]`: it
/// is void; or an entry for its id has a chance (in thousandths) above its
/// draw, and it has not been updated at `dt`; or it is an object and
/// `material` a liquid.
pub open spec fn swap_decision(
    chunks: UpdateChunksType,
    pos: IVec2,
    ids: Seq<(u8, u16)>,
    material: Material,
    dt: u8,
    draws: Seq<u16>,
) -> bool {
    swap_decision_in(chunks.world(), chunks.materials, pos, ids, material, dt, draws)
}

/// `swap_decision` in the world `w` with the materials `materials`.
pub open spec fn swap_decision_in(
    w: Map<IVec2, Atom>,
    materials: Materials,
    pos: IVec2,
    ids: Seq<(u8, u16)>,
    material: Material,
    dt: u8,
    draws: Seq<u16>,
) -> bool {
    w.contains_key(pos) && {
        let a = w[pos];
        let m = materials.of(a.id);
        ||| m.is_void_spec()
        ||| ((exists|j: int| 0 <= j < ids.len() && (#[trigger] ids[j]).0 == a.id && draws[j] < ids[j].1)
            && a.updated_at != dt)
        ||| (m.is_object_spec() && material.is_liquid_spec())
    }
}

/// `draws` holds one number from `0..1000` for each of `n` entries.
pub open spec fn draws_ok(draws: Seq<u16>, n: nat) -> bool {
    draws.len() == n && forall|j: int| 0 <= j < draws.len() ==> #[trigger] draws[j] < 1000
}

/// Whether the atom at `pos` gives way to an atom of `material`, the draws
/// for the entries of `ids` being given by `draws`.
pub fn swapable_with(
    chunks: &UpdateChunksType,
    pos: IVec2,
    ids: &[(u8, u16)],
    material: Material,
    dt: u8,
    draws: &[u16],
) -> (b: bool)
    requires
        chunks.wf(),
        pos_ok(*chunks, pos),
        draws@.len() == ids@.len(),
    ensures
        b == swap_decision(*chunks, pos, ids@, material, dt, draws@),
{
    if let Some(atom) = chunks.group.get_global(pos) {
        proof {
            assert(chunks.has(pos));
            lemma_id_ok(*chunks, pos);
        }
        let atom_material = *chunks.materials.get_from_id(atom.id);
        if atom_material.is_void() {
            return true;
        }
        let mut hit = false;
        let mut j: usize = 0;
        while j < ids.len() && !hit
            invariant
                j <= ids@.len(),
                draws@.len() == ids@.len(),
                !hit ==> forall|j2: int| 0 <= j2 < j ==> !((#[trigger] ids@[j2]).0 == atom.id && draws@[j2] < ids@[j2].1),
                hit ==> exists|j2: int| 0 <= j2 < ids@.len() && (#[trigger] ids@[j2]).0 == atom.id && draws@[j2] < ids@[j2].1,
            decreases ids@.len() - j + (if hit { 0int } else { 1int }),
        {
            let (id, prob) = ids[j];
            if id == atom.id && draws[j] < prob {
                hit = true;
            } else {
                j += 1;
            }
        }
        proof {
            assert(chunks.world()[pos] == *atom);
            assert(atom_material == chunks.materials.of(atom.id));
            if !hit {
                assert(j == ids@.len());
                assert(!(exists|j2: int|
                    0 <= j2 < ids@.len() && (#[trigger] ids@[j2]).0 == atom.id && draws@[j2] < ids@[j2].1));
            }
        }
        (hit && atom.updated_at != dt) || (atom_material.is_object() && material.is_liquid())
    } else {
        false
    }
}

/// See if position is swapable, that means it sees if the position is a void
/// or if it's a swapable material and has been not updated.
/// `ids` gives, for some atom ids, the chance (in thousandths) that such an
/// atom gives way: a number is drawn from `0..1000` for each entry of the
/// atom's id, and the decision is `swapable_with` on those draws.
pub fn swapable(chunks: &UpdateChunksType, pos: IVec2, ids: &[(u8, u16)], material: Material, dt: u8) -> (b: bool)
    requires
        chunks.wf(),
        pos_ok(*chunks, pos),
    ensures
        exists|d: Seq<u16>| draws_ok(d, ids@.len()) && b == #[trigger] swap_decision(*chunks, pos, ids@, material, dt, d),
        swap_certain(*chunks, pos, material) ==> b,
        b ==> swap_possible(*chunks, pos, ids@, material, dt),
{
    let id: Option<u8> = match chunks.group.get_global(pos) {
        Some(atom) => Some(atom.id),
        None => None,
    };
    let mut draws: Vec<u16> = Vec::new();
    let mut j: usize = 0;
    while j < ids.len()
        invariant
            j <= ids@.len(),
            draws@.len() == j,
            forall|k: int| 0 <= k < j ==> #[trigger] draws@[k] < 1000,
        decreases ids@.len() - j,
    {
        let matches = match id {
            Some(i) => i == ids[j].0,
            None => false,
        };
        let d = if matches {
            random_below(1000)
        } else {
            0
        };
        draws.push(d);
        j += 1;
    }
    let b = swapable_with(chunks, pos, ids, material, dt, draws.as_slice());
    proof {
        let d = draws@;
        assert(draws_ok(d, ids@.len()));
        if b && !swap_certain(*chunks, pos, material) {
            let a = chunks.world()[pos];
            let j2 = choose|j2: int| 0 <= j2 < ids@.len() && (#[trigger] ids@[j2]).0 == a.id && d[j2] < ids@[j2].1;
            assert(ids@[j2].1 > 0);
        }
    }
    b
}

/// The entry of a neighbour list for the neighbour at offset `off`: its
/// offset, and whether it can be swapped, as `swapable` decides it.
pub open spec fn entry_ok(
    chunks: UpdateChunksType,
    pos: IVec2,
    ids: Seq<(u8, u16)>,
    material: Material,
    dt: u8,
    e: (bool, IVec2),
    off: IVec2,
) -> bool {
    let target = IVec2 { x: (pos.x + off.x) as i32, y: (pos.y + off.y) as i32 };
    &&& e.1 == off
    &&& exists|d: Seq<u16>| draws_ok(d, ids.len()) && e.0 == #[trigger] swap_decision(chunks, target, ids, material, dt, d)
    &&& swap_certain(chunks, target, material) ==> e.0
    &&& e.0 ==> swap_possible(chunks, target, ids, material, dt)
}

/// A position whose 8 surrounding positions are within 32 atoms of the centre.
pub open spec fn inner(p: IVec2) -> bool {
    33 <= p.x < 159 && 33 <= p.y < 159
}

/// A position whose three down neighbours are within 32 atoms of the centre,
/// where the group may be asked about them.
pub open spec fn down_ok(p: IVec2) -> bool {
    33 <= p.x < 159 && 31 <= p.y < 159
}

/// A position whose two side neighbours are within 32 atoms of the centre,
/// where the group may be asked about them.
pub open spec fn side_ok(p: IVec2) -> bool {
    33 <= p.x < 159 && 32 <= p.y < 160
}

/// The down neighbours of `pos`: straight down, then the two diagonals,
/// the right one first where `flip`, else the left one first. A powder that
/// is not moving only looks straight down.
pub fn down_neigh_with(
    chunks: &UpdateChunksType,
    pos: IVec2,
    ids: &[(u8, u16)],
    dt: u8,
    flip: bool,
) -> (neigh: [(bool, IVec2); 3])
    requires
        chunks.wf(),
        chunks.has(pos),
        down_ok(pos),
    ensures
        ({
            let material = chunks.material_at(pos);
            let (first, second) = if flip { (1i32, -1i32) } else { (-1i32, 1i32) };
            &&& entry_ok(*chunks, pos, ids@, material, dt, neigh[0], IVec2 { x: 0, y: 1 })
            &&& if material.is_powder_spec() && !chunks.world()[pos].moving {
                neigh[1] == (false, IVec2 { x: 0, y: 0 }) && neigh[2] == (false, IVec2 { x: 0, y: 0 })
            } else {
                entry_ok(*chunks, pos, ids@, material, dt, neigh[1], IVec2 { x: first, y: 1 })
                    && entry_ok(*chunks, pos, ids@, material, dt, neigh[2], IVec2 { x: second, y: 1 })
            }
        }),
{
    let zero = ivec2(0, 0);
    let mut neigh = [(false, zero); 3];

    let material = get_material(chunks, pos);
    let only_down = material.is_powder() && !get_moving(chunks, pos);
    proof {
        lemma_near_center_ok(*chunks, IVec2 { x: pos.x, y: (pos.y + 1) as i32 });
        lemma_near_center_ok(*chunks, IVec2 { x: (pos.x - 1) as i32, y: (pos.y + 1) as i32 });
        lemma_near_center_ok(*chunks, IVec2 { x: (pos.x + 1) as i32, y: (pos.y + 1) as i32 });
    }
    neigh[0] = (swapable(chunks, ivec2(pos.x, pos.y + 1), ids, material, dt), ivec2(0, 1));
    if !only_down {
        neigh[1] = (swapable(chunks, ivec2(pos.x - 1, pos.y + 1), ids, material, dt), ivec2(-1, 1));
        neigh[2] = (swapable(chunks, ivec2(pos.x + 1, pos.y + 1), ids, material, dt), ivec2(1, 1));
    }

    if flip {
        let tmp = neigh[1];
        neigh[1] = neigh[2];
        neigh[2] = tmp;
    }

    neigh
}

/// Gets down neighbours from a global pos: `down_neigh_with` on a coin
/// flip.
pub fn down_neigh(chunks: &UpdateChunksType, pos: IVec2, ids: &[(u8, u16)], dt: u8) -> (neigh: [(bool, IVec2); 3])
    requires
        chunks.wf(),
        chunks.has(pos),
        down_ok(pos),
    ensures
        ({
            let material = chunks.material_at(pos);
            &&& entry_ok(*chunks, pos, ids@, material, dt, neigh[0], IVec2 { x: 0, y: 1 })
            &&& if material.is_powder_spec() && !chunks.world()[pos].moving {
                neigh[1] == (false, IVec2 { x: 0, y: 0 }) && neigh[2] == (false, IVec2 { x: 0, y: 0 })
            } else {
                (entry_ok(*chunks, pos, ids@, material, dt, neigh[1], IVec2 { x: -1i32, y: 1i32 })
                    && entry_ok(*chunks, pos, ids@, material, dt, neigh[2], IVec2 { x: 1, y: 1 }))
                    || (entry_ok(*chunks, pos, ids@, material, dt, neigh[1], IVec2 { x: 1, y: 1 })
                    && entry_ok(*chunks, pos, ids@, material, dt, neigh[2], IVec2 { x: -1i32, y: 1i32 }))
            }
        }),
{
    let flip = random_bool();
    down_neigh_with(chunks, pos, ids, dt, flip)
}

/// The side neighbours of `pos`: the right one first where `flip`, else the
/// left one first.
pub fn side_neigh_with(
    chunks: &UpdateChunksType,
    pos: IVec2,
    ids: &[(u8, u16)],
    dt: u8,
    flip: bool,
) -> (neigh: [(bool, IVec2); 2])
    requires
        chunks.wf(),
        chunks.has(pos),
        side_ok(pos),
    ensures
        ({
            let material = chunks.material_at(pos);
            let (first, second) = if flip { (1i32, -1i32) } else { (-1i32, 1i32) };
            entry_ok(*chunks, pos, ids@, material, dt, neigh[0], IVec2 { x: first, y: 0 })
                && entry_ok(*chunks, pos, ids@, material, dt, neigh[1], IVec2 { x: second, y: 0 })
        }),
{
    let zero = ivec2(0, 0);
    let mut neigh = [(false, zero); 2];

    let material = get_material(chunks, pos);
    proof {
        lemma_near_center_ok(*chunks, IVec2 { x: (pos.x - 1) as i32, y: pos.y });
        lemma_near_center_ok(*chunks, IVec2 { x: (pos.x + 1) as i32, y: pos.y });
    }
    neigh[0] = (swapable(chunks, ivec2(pos.x - 1, pos.y), ids, material, dt), ivec2(-1, 0));
    neigh[1] = (swapable(chunks, ivec2(pos.x + 1, pos.y), ids, material, dt), ivec2(1, 0));

    if flip {
        let tmp = neigh[0];
        neigh[0] = neigh[1];
        neigh[1] = tmp;
    }

    neigh
}

/// Gets side neighbours from a global pos: `side_neigh_with` on a coin flip.
pub fn side_neigh(chunks: &UpdateChunksType, pos: IVec2, ids: &[(u8, u16)], dt: u8) -> (neigh: [(bool, IVec2); 2])
    requires
        chunks.wf(),
        chunks.has(pos),
        side_ok(pos),
    ensures
        ({
            let material = chunks.material_at(pos);
            (entry_ok(*chunks, pos, ids@, material, dt, neigh[0], IVec2 { x: -1i32, y: 0i32 })
                && entry_ok(*chunks, pos, ids@, material, dt, neigh[1], IVec2 { x: 1, y: 0 }))
                || (entry_ok(*chunks, pos, ids@, material, dt, neigh[0], IVec2 { x: 1, y: 0 })
                && entry_ok(*chunks, pos, ids@, material, dt, neigh[1], IVec2 { x: -1i32, y: 0i32 }))
        }),
{
    let flip = random_bool();
    side_neigh_with(chunks, pos, ids, dt, flip)
}

} // verus!

verus! {

/// The message that marks global position `p` of the group centred on chunk
/// `center` as dirty.
pub open spec fn dirty_msg(center: IVec2, p: IVec2, awake_surrouding: bool) -> DeferredDirtyRectUpdate {
    let (lp, i) = local_of(p);
    DeferredDirtyRectUpdate {
        chunk_pos: ChunkPos {
            atom: UVec2 { x: lp.x as u32, y: lp.y as u32 },
            chunk: IVec2 {
                x: (center.x + tmod(i as int, 3) - 1) as i32,
                y: (center.y + tdiv(i as int, 3) - 1) as i32,
            },
        },
        awake_surrouding,
    }
}

/// The atom that takes the place of an atom of material `m` in a swap: an
/// object leaves void behind.
pub open spec fn moved_atom(m: Material, a: Atom, dt: u8) -> Atom {
    if m.is_object_spec() {
        Atom { updated_at: dt, ..crate::atom::default_atom() }
    } else {
        Atom { updated_at: dt, ..a }
    }
}

/// The message for a position of the group.
pub fn dirty_msg_for(chunks: &UpdateChunksType, p: IVec2, awake_surrouding: bool) -> (msg: DeferredDirtyRectUpdate)
    requires
        chunks.wf(),
        0 <= p.x < 192,
        0 <= p.y < 192,
    ensures
        msg == dirty_msg(chunks.group.center_pos, p, awake_surrouding),
        msg.chunk_pos.wf(),
        msg.chunk_pos.in_range(),
{
    let (pos, idx) = global_to_local(p);
    let chunk = ChunkGroup::group_to_chunk(chunks.group.center_pos, idx);
    DeferredDirtyRectUpdate {
        chunk_pos: ChunkPos::new(uvec2(pos.x as u32, pos.y as u32), chunk),
        awake_surrouding,
    }
}

/// Swap two atoms from global 3x3 chunks positions.
/// An object does not move: the other atom gets a void in its place.
/// Both positions are marked updated at `dt`, and sent to be rendered.
pub fn swap(chunks: &mut UpdateChunksType, pos1: IVec2, pos2: IVec2, dt: u8)
    requires
        old(chunks).wf(),
        old(chunks).has(pos1),
        old(chunks).has(pos2),
        old(chunks).materials.0.len() > 0,
    ensures
        final(chunks).wf(),
        final(chunks).world() == old(chunks).world().insert(
            pos1,
            moved_atom(old(chunks).material_at(pos2), old(chunks).world()[pos2], dt),
        ).insert(pos2, moved_atom(old(chunks).material_at(pos1), old(chunks).world()[pos1], dt)),
        final(chunks).dirty_render_rects@ == old(chunks).dirty_render_rects@.push(
            dirty_msg(old(chunks).group.center_pos, pos1, false),
        ).push(dirty_msg(old(chunks).group.center_pos, pos2, false)),
        final(chunks).dirty_update_rects == old(chunks).dirty_update_rects,
        final(chunks).materials == old(chunks).materials,
        final(chunks).group.center_pos == old(chunks).group.center_pos,
{
    let materials = [get_material(chunks, pos1), get_material(chunks, pos2)];
    let temp = atom_of(chunks, pos1);
    let other = atom_of(chunks, pos2);
    proof {
        lemma_id_ok(*chunks, pos1);
        lemma_id_ok(*chunks, pos2);
    }
    let mut a1 = if materials[1].is_object() {
        Atom::default()
    } else {
        other
    };
    let mut a2 = if materials[0].is_object() {
        Atom::default()
    } else {
        temp
    };
    a1.updated_at = dt;
    a2.updated_at = dt;
    let ghost w0 = chunks.world();
    assert(w0.contains_key(pos2));
    put(chunks, pos1, a1);
    assert(chunks.world().contains_key(pos2));
    assert(chunks.has(pos2));
    put(chunks, pos2, a2);

    let msg1 = dirty_msg_for(chunks, pos1, false);
    chunks.dirty_render_rects.push(msg1);
    let msg2 = dirty_msg_for(chunks, pos2, false);
    chunks.dirty_render_rects.push(msg2);
}

} // verus!
