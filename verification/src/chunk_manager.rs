use vstd::prelude::*;
use std::collections::BTreeMap;
use crate::atom::Atom;
use crate::chunk::Chunk;
use crate::chunk_group::{ChunkGroup, chunk_region, store_region, region_len, chunk_index_of, in_region, region_pos, is_corner, offset_index};
use crate::group_api::center_ok;
use crate::manager_api::{ChunkPos, D1, RectMap, DeferredDirtyRectUpdate, rects_wf, with_point, with_neighbors, update_dirty_rects, update_dirty_rects_3x3, lemma_with_point_wf, tmod, tdiv};
use crate::group_api::msgs_ok;
use crate::math::{IVec2, key, ivec2, from_key, abs_i32, signum_i32};
use crate::consts::{LOAD_WIDTH, LOAD_HEIGHT};

verus! {

broadcast use vstd::laws_cmp::group_laws_cmp, vstd::std_specs::btree::group_btree_axioms;

/// The loaded chunks, keyed by chunk position.
pub type ChunkMap = BTreeMap<(i32, i32), Chunk>;

/// The atoms of each chunk of a map.
pub open spec fn atoms_view(m: Map<(i32, i32), Chunk>) -> Map<(i32, i32), Seq<Atom>> {
    m.map_values(|c: Chunk| c.atoms@)
}

/// Every chunk of the map has its atoms.
pub open spec fn chunks_wf(m: Map<(i32, i32), Chunk>) -> bool {
    forall|k: (i32, i32)| #[trigger] m.contains_key(k) ==> m[k].wf()
}

/// Updates and do the chunks logic
pub struct ChunkManager {
    pub chunks: ChunkMap,
    pub pos: IVec2,
    pub dt: u8,
}

//If true the direction is 1, if false the direction is -1
#[derive(Debug, Clone, Copy, PartialEq, Eq, Structural)]
pub enum MoveDir {
    X(i32),
    Y(i32),
}

/// The index in its chunk of the atom of a chunk position.
pub open spec fn atom_index(cp: ChunkPos) -> int {
    cp.atom.y * 64 + cp.atom.x
}

impl ChunkManager {
    pub open spec fn wf(&self) -> bool {
        chunks_wf(self.chunks@)
    }

    /// The atoms of each loaded chunk.
    pub open spec fn world(&self) -> Map<(i32, i32), Seq<Atom>> {
        atoms_view(self.chunks@)
    }

    /// The atom at a chunk position, if its chunk is loaded.
    pub open spec fn atom_at(&self, cp: ChunkPos) -> Option<Atom> {
        let k = crate::math::key_of(cp.chunk);
        if self.chunks@.contains_key(k) && atom_index(cp) < self.chunks@[k].atoms@.len() {
            Some(self.chunks@[k].atoms@[atom_index(cp)])
        } else {
            None
        }
    }

    pub fn get_atom(&self, pos: &ChunkPos) -> (r: Option<&Atom>)
        requires
            pos.atom.d1_ok(),
        ensures
            match r {
                Some(a) => self.atom_at(*pos) == Some(*a),
                None => self.atom_at(*pos) is None,
            },
    {
        if let Some(chunk) = self.chunks.get(&key(pos.chunk)) {
            let i = pos.atom.d1();
            if i < chunk.atoms.len() {
                Some(&chunk.atoms[i])
            } else {
                None
            }
        } else {
            None
        }
    }

    /// Replaces the atom at a chunk position; tells whether its chunk is
    /// loaded (nothing changes where it is not).
    pub fn set_atom(&mut self, pos: ChunkPos, atom: Atom) -> (b: bool)
        requires
            pos.atom.d1_ok(),
        ensures
            b == (old(self).atom_at(pos) is Some),
            b ==> final(self).world() == old(self).world().insert(
                crate::math::key_of(pos.chunk),
                old(self).world()[crate::math::key_of(pos.chunk)].update(atom_index(pos), atom),
            ),
            b ==> final(self).chunks@.dom() == old(self).chunks@.dom(),
            !b ==> final(self).chunks@ == old(self).chunks@,
            old(self).wf() ==> final(self).wf(),
            final(self).pos == old(self).pos,
            final(self).dt == old(self).dt,
    {
        let k = key(pos.chunk);
        let i = pos.atom.d1();
        let fits = match self.chunks.get(&k) {
            Some(chunk) => i < chunk.atoms.len(),
            None => false,
        };
        if !fits {
            return false;
        }
        match self.chunks.remove(&k) {
            Some(mut chunk) => {
                chunk.atoms.set(i, atom);
                self.chunks.insert(k, chunk);
                proof {
                    assert(self.world() =~= old(self).world().insert(k, old(self).world()[k].update(atom_index(pos), atom)));
                    assert(self.chunks@.dom() =~= old(self).chunks@.dom());
                }
                true
            },
            None => false,
        }
    }
}

} // verus!

verus! {

/// The part of chunk `i` of the 3x3, with atoms `atoms`, that a group holds.
pub open spec fn region_of(atoms: Seq<Atom>, i: int) -> Seq<Atom> {
    Seq::new(region_len(i) as nat, |k: int| atoms[chunk_index_of(i, k)])
}

/// The atoms of a chunk once the part that a group held is written back.
pub open spec fn stored(atoms: Seq<Atom>, region: Seq<Atom>, i: int) -> Seq<Atom> {
    Seq::new(4096, |j: int| if in_region(i, j) { region[region_pos(i, j)] } else { atoms[j] })
}

/// Key of chunk `i` of the 3x3 centred on `c`.
pub open spec fn neighbor_key(c: IVec2, i: int) -> (i32, i32) {
    ((c.x + i % 3 - 1) as i32, (c.y + i / 3 - 1) as i32)
}

/// Index in the 3x3 centred on `c` of the chunk with key `k`, or `-1`.
pub open spec fn index_in_group(c: IVec2, k: (i32, i32)) -> int {
    let dx = k.0 - c.x;
    let dy = k.1 - c.y;
    if -1 <= dx <= 1 && -1 <= dy <= 1 { (dy + 1) * 3 + (dx + 1) } else { -1 }
}

/// The atoms of the chunks once a group is given back to the map `m` that
/// it was taken from.
pub open spec fn returned(m: Map<(i32, i32), Seq<Atom>>, g: ChunkGroup) -> Map<(i32, i32), Seq<Atom>> {
    let ck = crate::math::key_of(g.center_pos);
    Map::new(
        |k: (i32, i32)| m.contains_key(k) || k == ck,
        |k: (i32, i32)| {
            let i = index_in_group(g.center_pos, k);
            if k == ck {
                g.center@
            } else if 0 <= i < 9 && g.region(i) is Some {
                stored(m[k], g.region(i).unwrap(), i)
            } else {
                m[k]
            }
        },
    )
}

/// Takes out of the map the centre chunk of a group, and copies the parts of
/// the 8 neighbouring chunks (those that are loaded) that face it.
pub fn take_group(chunks: &mut ChunkMap, center_pos: IVec2) -> (g: ChunkGroup)
    requires
        chunks_wf(old(chunks)@),
        old(chunks)@.contains_key(crate::math::key_of(center_pos)),
        center_ok(center_pos),
    ensures
        g.wf(),
        g.center_pos == center_pos,
        g.center@ == old(chunks)@[crate::math::key_of(center_pos)].atoms@,
        forall|i: int|
            0 <= i < 9 && i != 4 ==> #[trigger] g.region(i) == if old(chunks)@.contains_key(neighbor_key(center_pos, i)) {
                Some(region_of(old(chunks)@[neighbor_key(center_pos, i)].atoms@, i))
            } else {
                None
            },
        final(chunks)@ == old(chunks)@.remove(crate::math::key_of(center_pos)),
{
    let ck = key(center_pos);
    let center = match chunks.remove(&ck) {
        Some(c) => c.atoms,
        None => {
            proof {
                assert(false);
            }
            Vec::new()
        },
    };
    let mut corners: Vec<Option<Vec<Atom>>> = vec![None, None, None, None];
    let mut sides: Vec<Option<Vec<Atom>>> = vec![None, None, None, None];
    let mut i: i32 = 0;
    while i < 9
        invariant
            0 <= i <= 9,
            chunks@ == old(chunks)@.remove(ck),
            ck == crate::math::key_of(center_pos),
            chunks_wf(old(chunks)@),
            center_ok(center_pos),
            center@ == old(chunks)@[ck].atoms@,
            center@.len() == 4096,
            corners@.len() == 4,
            sides@.len() == 4,
            forall|j: int|
                0 <= j < 9 && j != 4 ==> #[trigger] (ChunkGroup { center, corners, sides, center_pos }).region(j) == if j < i && old(chunks)@.contains_key(
                    neighbor_key(center_pos, j),
                ) {
                    Some(region_of(old(chunks)@[neighbor_key(center_pos, j)].atoms@, j))
                } else {
                    None
                },
        decreases 9 - i,
    {
        if i != 4 {
            let x_off = i % 3 - 1;
            let y_off = i / 3 - 1;
            let nk = (center_pos.x + x_off, center_pos.y + y_off);
            assert(nk == neighbor_key(center_pos, i as int));
            assert(nk != ck);
            if let Some(chunk) = chunks.get(&nk) {
                let region = chunk_region(&chunk.atoms, x_off, y_off);
                assert(offset_index(x_off as int, y_off as int) == i);
                assert(region@ =~= region_of(old(chunks)@[nk].atoms@, i as int));
                let ghost before = ChunkGroup { center, corners, sides, center_pos };
                if i == 0 || i == 2 || i == 6 || i == 8 {
                    let s = ChunkGroup::surrounding_idx(i) as usize;
                    corners.set(s, Some(region));
                } else {
                    let s = ChunkGroup::surrounding_idx(i) as usize;
                    sides.set(s, Some(region));
                }
                proof {
                    let after = ChunkGroup { center, corners, sides, center_pos };
                    assert forall|j: int| 0 <= j < 9 && j != 4 implies #[trigger] after.region(j) == if j < i + 1
                        && old(chunks)@.contains_key(neighbor_key(center_pos, j)) {
                        Some(region_of(old(chunks)@[neighbor_key(center_pos, j)].atoms@, j))
                    } else {
                        None
                    } by {
                        assert(before.region(j) == if j < i && old(chunks)@.contains_key(neighbor_key(center_pos, j)) {
                            Some(region_of(old(chunks)@[neighbor_key(center_pos, j)].atoms@, j))
                        } else {
                            None
                        });
                    }
                }
            }
        }
        i += 1;
    }
    let g = ChunkGroup { center, corners, sides, center_pos };
    proof {
        assert forall|j: int| 0 <= j < 9 && #[trigger] g.region(j) is Some implies g.region(j).unwrap().len() == region_len(j) by {
            if j != 4 {
                assert(g.region(j) == if old(chunks)@.contains_key(neighbor_key(center_pos, j)) {
                    Some(region_of(old(chunks)@[neighbor_key(center_pos, j)].atoms@, j))
                } else {
                    None
                });
            }
        }
    }
    g
}

} // verus!

verus! {

/// `returned` for the neighbours of index below `n` only, the centre left out.
pub open spec fn returned_upto(m: Map<(i32, i32), Seq<Atom>>, g: ChunkGroup, n: int) -> Map<(i32, i32), Seq<Atom>> {
    Map::new(
        |k: (i32, i32)| m.contains_key(k),
        |k: (i32, i32)| {
            let i = index_in_group(g.center_pos, k);
            if 0 <= i < n && i != 4 && g.region(i) is Some {
                stored(m[k], g.region(i).unwrap(), i)
            } else {
                m[k]
            }
        },
    )
}

/// Only the neighbour key of index `i` has index `i` in the group.
proof fn lemma_index_in_group(c: IVec2, k: (i32, i32), i: int)
    requires
        0 <= i < 9,
        index_in_group(c, k) == i,
        center_ok(c),
    ensures
        k == neighbor_key(c, i),
{
    let dx = k.0 - c.x;
    let dy = k.1 - c.y;
    assert(-1 <= dx <= 1 && -1 <= dy <= 1);
    assert(i % 3 - 1 == dx && i / 3 - 1 == dy);
}

/// One more neighbour written back: only its key changes.
proof fn lemma_returned_step(
    m0: Map<(i32, i32), Seq<Atom>>,
    group: ChunkGroup,
    before: Map<(i32, i32), Seq<Atom>>,
    after: Map<(i32, i32), Seq<Atom>>,
    i: int,
)
    requires
        0 <= i < 9,
        center_ok(group.center_pos),
        before == returned_upto(m0, group, i),
        after.dom() == before.dom(),
        forall|k: (i32, i32)| #[trigger] after.contains_key(k) && k != neighbor_key(group.center_pos, i) ==> after[k] == before[k],
        after.contains_key(neighbor_key(group.center_pos, i)) ==> after[neighbor_key(group.center_pos, i)]
            == returned_upto(m0, group, i + 1)[neighbor_key(group.center_pos, i)],
    ensures
        after == returned_upto(m0, group, i + 1),
{
    let r = returned_upto(m0, group, i + 1);
    assert forall|k: (i32, i32)| #[trigger] after.contains_key(k) implies after[k] == r[k] by {
        if k != neighbor_key(group.center_pos, i) && index_in_group(group.center_pos, k) == i {
            lemma_index_in_group(group.center_pos, k, i);
        }
    }
    assert(after =~= r);
}

/// Gives a group back to the map it was taken from: puts the centre chunk
/// back, and writes the parts of the neighbouring chunks into them.
pub fn return_group(chunks: &mut ChunkMap, group: ChunkGroup)
    requires
        chunks_wf(old(chunks)@),
        group.wf(),
        center_ok(group.center_pos),
        !old(chunks)@.contains_key(crate::math::key_of(group.center_pos)),
    ensures
        atoms_view(final(chunks)@) == returned(atoms_view(old(chunks)@), group),
        chunks_wf(final(chunks)@),
{
    let ghost m0 = atoms_view(chunks@);
    let center_pos = group.center_pos;
    let ck = key(center_pos);
    let mut i: i32 = 0;
    while i < 9
        invariant
            0 <= i <= 9,
            group.wf(),
            center_ok(center_pos),
            center_pos == group.center_pos,
            ck == crate::math::key_of(center_pos),
            m0 == atoms_view(old(chunks)@),
            !old(chunks)@.contains_key(ck),
            chunks_wf(chunks@),
            chunks@.dom() == old(chunks)@.dom(),
            atoms_view(chunks@) == returned_upto(m0, group, i as int),
        decreases 9 - i,
    {
        if i != 4 {
            let x_off = i % 3 - 1;
            let y_off = i / 3 - 1;
            let nk = (center_pos.x + x_off, center_pos.y + y_off);
            assert(index_in_group(center_pos, nk) == i);
            let region = if i == 0 || i == 2 || i == 6 || i == 8 {
                &group.corners[ChunkGroup::surrounding_idx(i) as usize]
            } else {
                &group.sides[ChunkGroup::surrounding_idx(i) as usize]
            };
            assert(crate::chunk_group::opt_view(*region) == group.region(i as int));
            if let Some(region) = region {
                let ghost before = chunks@;
                if let Some(mut chunk) = chunks.remove(&nk) {
                    assert(offset_index(x_off as int, y_off as int) == i);
                    assert(before.contains_key(nk));
                    assert(atoms_view(before)[nk] == returned_upto(m0, group, i as int)[nk]);
                    assert(chunk.atoms@ == m0[nk]);
                    store_region(&mut chunk.atoms, region, x_off, y_off);
                    let ghost new_atoms = chunk.atoms@;
                    chunks.insert(nk, chunk);
                    proof {
                        assert(new_atoms =~= stored(m0[nk], region@, i as int));
                        assert(chunks@.dom() =~= old(chunks)@.dom());
                        lemma_returned_step(m0, group, atoms_view(before), atoms_view(chunks@), i as int);
                    }
                } else {
                    proof {
                        assert(chunks@ =~= before);
                        lemma_returned_step(m0, group, atoms_view(before), atoms_view(chunks@), i as int);
                    }
                }
            } else {
                proof {
                    lemma_returned_step(m0, group, atoms_view(chunks@), atoms_view(chunks@), i as int);
                }
            }
        } else {
            proof {
                assert(atoms_view(chunks@) =~= returned_upto(m0, group, i + 1));
            }
        }
        i += 1;
    }
    let ghost before = chunks@;
    let center_atoms = group.center;
    let ghost ca = center_atoms@;
    chunks.insert(ck, Chunk { atoms: center_atoms });
    proof {
        let r = returned(m0, group);
        let a = atoms_view(chunks@);
        assert forall|k: (i32, i32)| #[trigger] a.contains_key(k) implies r.contains_key(k) && a[k] == r[k] by {
            if k == ck {
                assert(a[k] == ca);
            } else {
                assert(before.contains_key(k));
                assert(a[k] == atoms_view(before)[k]);
                assert(atoms_view(before)[k] == returned_upto(m0, group, 9)[k]);
            }
        }
        assert forall|k: (i32, i32)| #[trigger] r.contains_key(k) implies a.contains_key(k) by {
            if k != ck {
                assert(before.contains_key(k));
            }
        }
        assert(a =~= r);
    }
}

/// Law: giving back a group that was just taken leaves every chunk as it was.
pub proof fn law_take_return_roundtrip(m: Map<(i32, i32), Chunk>, g: ChunkGroup)
    requires
        chunks_wf(m),
        m.contains_key(crate::math::key_of(g.center_pos)),
        center_ok(g.center_pos),
        g.center@ == m[crate::math::key_of(g.center_pos)].atoms@,
        forall|i: int|
            0 <= i < 9 && i != 4 ==> #[trigger] g.region(i) == if m.contains_key(neighbor_key(g.center_pos, i)) {
                Some(region_of(m[neighbor_key(g.center_pos, i)].atoms@, i))
            } else {
                None
            },
    ensures
        returned(atoms_view(m.remove(crate::math::key_of(g.center_pos))), g) == atoms_view(m),
{
    let ck = crate::math::key_of(g.center_pos);
    let r = returned(atoms_view(m.remove(ck)), g);
    assert forall|k: (i32, i32)| #[trigger] r.contains_key(k) implies r[k] == atoms_view(m)[k] by {
        let i = index_in_group(g.center_pos, k);
        if k != ck && 0 <= i < 9 && g.region(i) is Some {
            assert(k == neighbor_key(g.center_pos, i));
            let atoms = m[k].atoms@;
            let region = region_of(atoms, i);
            crate::chunk_group::lemma_region_bijection(i);
            assert forall|j: int| 0 <= j < 4096 implies #[trigger] stored(atoms, region, i)[j] == atoms[j] by {
                if in_region(i, j) {
                    assert(region[region_pos(i, j)] == atoms[chunk_index_of(i, region_pos(i, j))]);
                }
            }
            assert(stored(atoms, region, i) =~= atoms);
        }
    }
    assert(r =~= atoms_view(m));
}

} // verus!

verus! {

/// The dirty rectangles of the loaded chunks.
pub struct DirtyRects {
    /// The current chunk update dirty rects
    pub current: RectMap,
    /// The new chunk update dirty rects
    pub new: RectMap,
    /// The dirty render rects
    pub render: RectMap,
}

impl DirtyRects {
    pub open spec fn wf(&self) -> bool {
        rects_wf(self.current@) && rects_wf(self.new@) && rects_wf(self.render@)
    }

    /// Makes the new update rectangles the current ones (and the other way).
    pub fn swap(&mut self)
        ensures
            final(self).current@ == old(self).new@,
            final(self).new@ == old(self).current@,
            final(self).render@ == old(self).render@,
    {
        std::mem::swap(&mut self.current, &mut self.new)
    }

    /// Forgets the render rectangles.
    pub fn clear_render(&mut self)
        ensures
            final(self).render@ == Map::<(i32, i32), crate::math::URect>::empty(),
            final(self).current@ == old(self).current@,
            final(self).new@ == old(self).new@,
    {
        self.render = BTreeMap::new();
    }
}

/// The rectangles once the messages `msgs[0..n]` are handled: a message that
/// asks to awake the surrounding marks the 3x3 square around its atom, the
/// others mark the atom alone.
pub open spec fn apply_msgs(m: Map<(i32, i32), crate::math::URect>, msgs: Seq<DeferredDirtyRectUpdate>, n: nat) -> Map<
    (i32, i32),
    crate::math::URect,
>
    decreases n,
{
    if n == 0 {
        m
    } else {
        let prev = apply_msgs(m, msgs, (n - 1) as nat);
        let msg = msgs[n - 1];
        if msg.awake_surrouding {
            with_neighbors(prev, msg.chunk_pos, 9)
        } else {
            with_point(prev, msg.chunk_pos)
        }
    }
}

/// The rectangles once the messages `msgs[0..n]` are handled, each marking
/// its atom alone (render rectangles).
pub open spec fn apply_points(m: Map<(i32, i32), crate::math::URect>, msgs: Seq<DeferredDirtyRectUpdate>, n: nat) -> Map<
    (i32, i32),
    crate::math::URect,
>
    decreases n,
{
    if n == 0 {
        m
    } else {
        with_point(apply_points(m, msgs, (n - 1) as nat), msgs[n - 1].chunk_pos)
    }
}

/// Handles the deferred dirty update messages of an update step.
pub fn apply_dirty_updates(new_dirty_rects: &mut RectMap, msgs: &Vec<DeferredDirtyRectUpdate>)
    requires
        rects_wf(old(new_dirty_rects)@),
        msgs_ok(msgs@),
    ensures
        final(new_dirty_rects)@ == apply_msgs(old(new_dirty_rects)@, msgs@, msgs@.len()),
        rects_wf(final(new_dirty_rects)@),
{
    let mut j: usize = 0;
    while j < msgs.len()
        invariant
            j <= msgs@.len(),
            msgs_ok(msgs@),
            rects_wf(new_dirty_rects@),
            new_dirty_rects@ == apply_msgs(old(new_dirty_rects)@, msgs@, j as nat),
        decreases msgs@.len() - j,
    {
        let update = msgs[j];
        assert(update.chunk_pos.wf() && update.chunk_pos.in_range());
        if update.awake_surrouding {
            update_dirty_rects_3x3(new_dirty_rects, update.chunk_pos);
        } else {
            proof {
                lemma_with_point_wf(new_dirty_rects@, update.chunk_pos);
            }
            update_dirty_rects(new_dirty_rects, update.chunk_pos)
        }
        j += 1;
    }
}

/// Handles the deferred dirty render messages of an update step.
pub fn apply_render_updates(render_dirty_rects: &mut RectMap, msgs: &Vec<DeferredDirtyRectUpdate>)
    requires
        rects_wf(old(render_dirty_rects)@),
        msgs_ok(msgs@),
    ensures
        final(render_dirty_rects)@ == apply_points(old(render_dirty_rects)@, msgs@, msgs@.len()),
        rects_wf(final(render_dirty_rects)@),
{
    let mut j: usize = 0;
    while j < msgs.len()
        invariant
            j <= msgs@.len(),
            msgs_ok(msgs@),
            rects_wf(render_dirty_rects@),
            render_dirty_rects@ == apply_points(old(render_dirty_rects)@, msgs@, j as nat),
        decreases msgs@.len() - j,
    {
        let update = msgs[j];
        proof {
            lemma_with_point_wf(render_dirty_rects@, update.chunk_pos);
        }
        update_dirty_rects(render_dirty_rects, update.chunk_pos);
        j += 1;
    }
}

/// `|v| % 2`, the parity of `v`.
pub open spec fn parity(v: int) -> int {
    if v >= 0 { v % 2 } else { (-v) % 2 }
}

/// Whether the chunk at `chunk_pos` is the centre of a group in the update
/// step `(x_toff, y_toff)` of the checker pattern, the manager being at
/// `manager_pos`.
pub open spec fn spec_is_update_center(chunk_pos: IVec2, toff: (i32, i32), manager_pos: IVec2) -> bool {
    parity(chunk_pos.x + toff.0 + parity(manager_pos.x as int)) == 0
        && parity(chunk_pos.y + toff.1 + parity(manager_pos.y as int)) == 0
}

/// Whether the chunk at `chunk_pos` is the centre of a group in the update
/// step `(x_toff, y_toff)`: the 4 steps of the checker pattern update chunks
/// that are two apart, so that their groups never share an atom.
pub fn is_update_center(chunk_pos: IVec2, toff: (i32, i32), manager_pos: IVec2) -> (b: bool)
    requires
        -33554430 <= chunk_pos.x <= 33554430,
        -33554430 <= chunk_pos.y <= 33554430,
        0 <= toff.0 <= 1,
        0 <= toff.1 <= 1,
        manager_pos.x > i32::MIN,
        manager_pos.y > i32::MIN,
    ensures
        b == spec_is_update_center(chunk_pos, toff, manager_pos),
{
    let (x_toff, y_toff) = toff;
    let same_x = (chunk_pos.x + x_toff + abs_i32(manager_pos.x) % 2) % 2 == 0;
    let same_y = (chunk_pos.y + y_toff + abs_i32(manager_pos.y) % 2) % 2 == 0;
    same_x && same_y
}

/// The atom at index `j` of the chunk with key `k` is one that the group
/// centred on `c` may touch.
pub open spec fn held_by(c: IVec2, k: (i32, i32), j: int) -> bool {
    let i = index_in_group(c, k);
    0 <= i < 9 && 0 <= j < 4096 && (i == 4 || in_region(i, j))
}

/// Law: two different groups of the same update step never hold the same
/// atom, so they may be updated at the same time.
pub proof fn law_same_step_groups_disjoint(
    a: IVec2,
    b: IVec2,
    toff: (i32, i32),
    manager_pos: IVec2,
    k: (i32, i32),
    j: int,
)
    requires
        spec_is_update_center(a, toff, manager_pos),
        spec_is_update_center(b, toff, manager_pos),
        a != b,
    ensures
        !(held_by(a, k, j) && held_by(b, k, j)),
{
    if held_by(a, k, j) && held_by(b, k, j) {
        let ia = index_in_group(a, k);
        let ib = index_in_group(b, k);
        let dxa = k.0 - a.x;
        let dya = k.1 - a.y;
        let dxb = k.0 - b.x;
        let dyb = k.1 - b.y;
        assert(parity(a.x - b.x) == 0 && parity(a.y - b.y) == 0);
        assert(dxa != dxb || dya != dyb);
        assert(false);
    }
}

} // verus!

verus! {

/// The chunk key has coordinates that the update accepts.
pub open spec fn key_ok(k: (i32, i32)) -> bool {
    -33554429 <= k.0 <= 33554429 && -33554429 <= k.1 <= 33554429
}

/// The centres of the groups of the update step `toff`: the chunks that have
/// a dirty rectangle, are loaded, and are centres in that step.
pub fn update_centers(
    chunks: &ChunkMap,
    dirty_rects: &RectMap,
    toff: (i32, i32),
    manager_pos: IVec2,
) -> (centers: Vec<IVec2>)
    requires
        forall|k: (i32, i32)| #[trigger] dirty_rects@.contains_key(k) ==> key_ok(k),
        0 <= toff.0 <= 1,
        0 <= toff.1 <= 1,
        manager_pos.x > i32::MIN,
        manager_pos.y > i32::MIN,
    ensures
        centers@.no_duplicates(),
        forall|p: IVec2|
            centers@.contains(p) <==> (dirty_rects@.contains_key(crate::math::key_of(p)) && chunks@.contains_key(
                crate::math::key_of(p),
            ) && spec_is_update_center(p, toff, manager_pos)),
{
    let mut centers: Vec<IVec2> = Vec::new();
    for k in it: dirty_rects.keys()
        invariant
            forall|k2: (i32, i32)| #[trigger] dirty_rects@.contains_key(k2) ==> key_ok(k2),
            0 <= toff.0 <= 1,
            0 <= toff.1 <= 1,
            manager_pos.x > i32::MIN,
            manager_pos.y > i32::MIN,
            it.seq().unref().no_duplicates(),
            it.seq().unref().to_set() == dirty_rects@.dom(),
            centers@.no_duplicates(),
            forall|p: IVec2|
                centers@.contains(p) <==> (exists|j: int| 0 <= j < it.index() && (#[trigger] it.seq().unref()[j]) == crate::math::key_of(p))
                    && chunks@.contains_key(crate::math::key_of(p)) && spec_is_update_center(p, toff, manager_pos),
    {
        let p = crate::math::from_key(*k);
        proof {
            let sq = it.seq().unref();
            assert(*k == sq[it.index() as int]);
            assert(sq.contains(*k));
            assert(sq.to_set().contains(*k));
        }
        assert(key_ok(*k));
        let ghost old_centers = centers@;
        let hit = chunks.contains_key(k) && is_update_center(p, toff, manager_pos);
        if hit {
            proof {
                if centers@.contains(p) {
                    let j = choose|j: int| 0 <= j < it.index() && (#[trigger] it.seq().unref()[j]) == crate::math::key_of(p);
                    assert(it.seq().unref()[j] == it.seq().unref()[it.index() as int]);
                }
            }
            centers.push(p);
            proof {
                crate::atom_update::lemma_push_no_dup(old_centers, p);
            }
        }
        proof {
            let sq = it.seq().unref();
            let i0 = it.index() as int;
            assert forall|q: IVec2|
                centers@.contains(q) <==> (exists|j: int| 0 <= j < i0 + 1 && (#[trigger] sq[j]) == crate::math::key_of(q))
                    && chunks@.contains_key(crate::math::key_of(q)) && spec_is_update_center(q, toff, manager_pos) by {
                if q == p {
                    assert(!old_centers.contains(q)) by {
                        if old_centers.contains(q) {
                            let j = choose|j: int| 0 <= j < i0 && (#[trigger] sq[j]) == crate::math::key_of(q);
                            assert(sq[j] == sq[i0]);
                        }
                    }
                    if hit {
                        assert(centers@[old_centers.len() as int] == q);
                        assert(sq[i0] == crate::math::key_of(q));
                    } else {
                        assert(centers@ == old_centers);
                        if exists|j: int| 0 <= j < i0 + 1 && (#[trigger] sq[j]) == crate::math::key_of(q) {
                            assert(sq[i0] == crate::math::key_of(q));
                        }
                    }
                } else {
                    assert(crate::math::key_of(q) != crate::math::key_of(p));
                    assert(centers@.contains(q) <==> old_centers.contains(q)) by {
                        if hit {
                            assert(centers@ == old_centers.push(p));
                            if centers@.contains(q) {
                                let j = choose|j: int| 0 <= j < centers@.len() && centers@[j] == q;
                                assert(j < old_centers.len());
                                assert(old_centers[j] == q);
                            }
                            if old_centers.contains(q) {
                                let j = choose|j: int| 0 <= j < old_centers.len() && old_centers[j] == q;
                                assert(centers@[j] == q);
                            }
                        }
                    }
                    if exists|j: int| 0 <= j < i0 + 1 && (#[trigger] sq[j]) == crate::math::key_of(q) {
                        let j = choose|j: int| 0 <= j < i0 + 1 && (#[trigger] sq[j]) == crate::math::key_of(q);
                        assert(j != i0);
                    }
                }
            }
        }
    }
    centers
}

} // verus!

verus! {

/// The position of the manager after a move.
pub open spec fn moved_pos(pos: IVec2, mv: MoveDir) -> IVec2 {
    match mv {
        MoveDir::X(d) => IVec2 { x: (pos.x + d) as i32, y: pos.y },
        MoveDir::Y(d) => IVec2 { x: pos.x, y: (pos.y + d) as i32 },
    }
}

/// The move keeps every chunk coordinate it touches inside `i32`.
pub open spec fn move_fits(pos: IVec2, mv: MoveDir) -> bool {
    match mv {
        MoveDir::X(d) => i32::MIN < pos.x + d - 1 && pos.x + d + LOAD_WIDTH <= i32::MAX && pos.y
            + LOAD_HEIGHT <= i32::MAX,
        MoveDir::Y(d) => i32::MIN < pos.y + d - 1 && pos.y + d + LOAD_HEIGHT <= i32::MAX && pos.x
            + LOAD_WIDTH <= i32::MAX,
    }
}

/// The chunk `k` lies on the line that a move to `pos` (the new position)
/// leaves behind: the one just outside the loaded area.
pub open spec fn saved_line(pos: IVec2, mv: MoveDir, k: (i32, i32)) -> bool {
    match mv {
        MoveDir::X(d) => k.0 == pos.x + (if d == -1 { LOAD_WIDTH as int } else { -1 }),
        MoveDir::Y(d) => k.1 == pos.y + (if d == -1 { LOAD_HEIGHT as int } else { -1 }),
    }
}

/// The chunk `k` lies on the line that a move to `pos` brings in.
pub open spec fn loaded_line(pos: IVec2, mv: MoveDir, k: (i32, i32)) -> bool {
    match mv {
        MoveDir::X(d) => k.0 == pos.x + (if d == 1 { LOAD_WIDTH - 1 } else { 0 }),
        MoveDir::Y(d) => k.1 == pos.y + (if d == 1 { LOAD_HEIGHT - 1 } else { 0 }),
    }
}

/// The place of the chunk `k` along the moved line.
pub open spec fn line_index(pos: IVec2, mv: MoveDir, k: (i32, i32)) -> int {
    match mv {
        MoveDir::X(_) => k.1 - pos.y,
        MoveDir::Y(_) => k.0 - pos.x,
    }
}

/// How many chunks a moved line has.
pub open spec fn line_len(mv: MoveDir) -> int {
    match mv {
        MoveDir::X(_) => LOAD_HEIGHT as int,
        MoveDir::Y(_) => LOAD_WIDTH as int,
    }
}

/// The chunk `k` is among the first `n` of its line.
pub open spec fn upto(pos: IVec2, mv: MoveDir, k: (i32, i32), n: int) -> bool {
    0 <= line_index(pos, mv, k) < n
}

/// The loaded chunks once the first `n` chunks of both lines are handled:
/// those left behind are gone, those brought in are read from `file`.
pub open spec fn world_after_move(
    w: Map<(i32, i32), Seq<Atom>>,
    file: Map<(i32, i32), Seq<Atom>>,
    pos: IVec2,
    mv: MoveDir,
    n: int,
) -> Map<(i32, i32), Seq<Atom>> {
    Map::new(
        |k: (i32, i32)|
            (w.contains_key(k) && !(saved_line(pos, mv, k) && upto(pos, mv, k, n))) || (loaded_line(pos, mv, k)
                && upto(pos, mv, k, n) && file.contains_key(k)),
        |k: (i32, i32)|
            if loaded_line(pos, mv, k) && upto(pos, mv, k, n) && file.contains_key(k) {
                file[k]
            } else {
                w[k]
            },
    )
}

/// The saved chunks once the first `n` chunks of both lines are handled:
/// those left behind are written over what was saved.
pub open spec fn file_after_move(
    w: Map<(i32, i32), Seq<Atom>>,
    file: Map<(i32, i32), Seq<Atom>>,
    pos: IVec2,
    mv: MoveDir,
    n: int,
) -> Map<(i32, i32), Seq<Atom>> {
    Map::new(
        |k: (i32, i32)| file.contains_key(k) || (saved_line(pos, mv, k) && upto(pos, mv, k, n) && w.contains_key(k)),
        |k: (i32, i32)|
            if saved_line(pos, mv, k) && upto(pos, mv, k, n) && w.contains_key(k) {
                w[k]
            } else {
                file[k]
            },
    )
}

/// The chunks a move brings in that the saved world does not hold, and that
/// have to be generated.
pub open spec fn to_generate(pos: IVec2, mv: MoveDir, file: Map<(i32, i32), Chunk>, p: IVec2) -> bool {
    let k = crate::math::key_of(p);
    loaded_line(pos, mv, k) && upto(pos, mv, k, line_len(mv)) && !file.contains_key(k)
}

impl ChunkManager {
    /// Moves the loaded area by one chunk along x or y: the line of chunks
    /// left behind is saved into `file_chunks`, the line brought in is read
    /// from it. Returns, in order along the line, the positions of the chunks
    /// brought in that `file_chunks` does not hold, which are to be generated
    /// and inserted.
    pub fn move_manager(&mut self, file_chunks: &mut ChunkMap, move_dir: MoveDir) -> (generate: Vec<IVec2>)
        requires
            move_fits(old(self).pos, move_dir),
            forall|k: (i32, i32)|
                saved_line(moved_pos(old(self).pos, move_dir), move_dir, k) && upto(
                    moved_pos(old(self).pos, move_dir),
                    move_dir,
                    k,
                    line_len(move_dir),
                ) ==> #[trigger] old(self).chunks@.contains_key(k),
        ensures
            final(self).pos == moved_pos(old(self).pos, move_dir),
            final(self).dt == old(self).dt,
            final(self).world() == world_after_move(
                old(self).world(),
                atoms_view(old(file_chunks)@),
                final(self).pos,
                move_dir,
                line_len(move_dir),
            ),
            atoms_view(final(file_chunks)@) == file_after_move(
                old(self).world(),
                atoms_view(old(file_chunks)@),
                final(self).pos,
                move_dir,
                line_len(move_dir),
            ),
            old(self).wf() && chunks_wf(old(file_chunks)@) ==> final(self).wf() && chunks_wf(final(file_chunks)@),
            forall|p: IVec2| generate@.contains(p) <==> to_generate(final(self).pos, move_dir, old(file_chunks)@, p),
            forall|a: int, b: int|
                0 <= a < b < generate@.len() ==> line_index(final(self).pos, move_dir, crate::math::key_of(generate@[a]))
                    < line_index(final(self).pos, move_dir, crate::math::key_of(generate@[b])),
    {
        let (for_load, vec_load, dir, y) = match move_dir {
            MoveDir::X(dir) => {
                self.pos.x = self.pos.x + dir;
                (LOAD_HEIGHT, LOAD_WIDTH, dir, false)
            },
            MoveDir::Y(dir) => {
                self.pos.y = self.pos.y + dir;
                (LOAD_WIDTH, LOAD_HEIGHT, dir, true)
            },
        };
        let ghost npos = self.pos;
        let ghost w0 = old(self).world();
        let ghost f0 = atoms_view(old(file_chunks)@);
        let mut generate: Vec<IVec2> = Vec::new();
        let mut i: i32 = 0;
        while i < for_load
            invariant
                0 <= i <= for_load,
                for_load == line_len(move_dir),
                npos == self.pos,
                npos == moved_pos(old(self).pos, move_dir),
                move_fits(old(self).pos, move_dir),
                self.dt == old(self).dt,
                match move_dir {
                    MoveDir::X(d) => dir == d && !y && vec_load == LOAD_WIDTH,
                    MoveDir::Y(d) => dir == d && y && vec_load == LOAD_HEIGHT,
                },
                w0 == old(self).world(),
                f0 == atoms_view(old(file_chunks)@),
                forall|k: (i32, i32)|
                    saved_line(npos, move_dir, k) && upto(npos, move_dir, k, line_len(move_dir))
                        ==> #[trigger] old(self).chunks@.contains_key(k),
                self.world() == world_after_move(w0, f0, npos, move_dir, i as int),
                atoms_view(file_chunks@) == file_after_move(w0, f0, npos, move_dir, i as int),
                old(self).wf() && chunks_wf(old(file_chunks)@) ==> self.wf() && chunks_wf(file_chunks@),
                forall|p: IVec2|
                    generate@.contains(p) <==> (to_generate(npos, move_dir, old(file_chunks)@, p) && upto(
                        npos,
                        move_dir,
                        crate::math::key_of(p),
                        i as int,
                    )),
                forall|a: int, b: int|
                    0 <= a < b < generate@.len() ==> line_index(npos, move_dir, crate::math::key_of(generate@[a]))
                        < line_index(npos, move_dir, crate::math::key_of(generate@[b])),
                forall|a: int|
                    0 <= a < generate@.len() ==> line_index(npos, move_dir, crate::math::key_of(#[trigger] generate@[a])) < i,
            decreases for_load - i,
        {
            // The chunk left behind.
            let (sx, sy) = if dir == -1 { (vec_load, i) } else { (-1, i) };
            let (sx, sy) = if y { (sy, sx) } else { (sx, sy) };
            let sk = (self.pos.x + sx, self.pos.y + sy);
            // The chunk brought in.
            let (lx, ly) = if dir == 1 { (vec_load - 1, i) } else { (0, i) };
            let (lx, ly) = if y { (ly, lx) } else { (lx, ly) };
            let lk = (self.pos.x + lx, self.pos.y + ly);
            assert(saved_line(npos, move_dir, sk) && line_index(npos, move_dir, sk) == i);
            assert(loaded_line(npos, move_dir, lk) && line_index(npos, move_dir, lk) == i);
            assert(!saved_line(npos, move_dir, lk));
            assert(!loaded_line(npos, move_dir, sk));
            let ghost c1 = self.chunks@;
            let ghost fc1 = file_chunks@;
            match self.chunks.remove(&sk) {
                Some(changed) => {
                    file_chunks.insert(sk, changed);
                },
                None => {
                    proof {
                        assert(old(self).chunks@.contains_key(sk));
                        assert(w0.contains_key(sk));
                        assert(!upto(npos, move_dir, sk, i as int));
                        assert(world_after_move(w0, f0, npos, move_dir, i as int).contains_key(sk));
                        assert(self.world().contains_key(sk));
                        assert(false);
                    }
                },
            }
            let ghost c2 = self.chunks@;
            let ghost fc2 = file_chunks@;
            proof {
                assert(c2 == c1.remove(sk));
                assert(fc2 == fc1.insert(sk, c1[sk]));
            }
            let found = match file_chunks.get(&lk) {
                Some(file_chunk) => {
                    assert(*file_chunk == fc2[lk]);
                    Some(file_chunk.copied())
                },
                None => None,
            };
            let ghost found_atoms = match &found {
                Some(c) => Some(c.atoms@),
                None => None,
            };
            proof {
                if found_atoms is Some {
                    assert(fc2.contains_key(lk));
                    assert(found_atoms.unwrap() == fc2[lk].atoms@);
                    assert(fc2[lk] == fc1[lk]);
                    assert(atoms_view(fc1)[lk] == fc1[lk].atoms@);
                    assert(file_after_move(w0, f0, npos, move_dir, i as int).contains_key(lk));
                    assert(f0.contains_key(lk));
                    assert(file_after_move(w0, f0, npos, move_dir, i as int)[lk] == f0[lk]);
                    assert(found_atoms.unwrap() == f0[lk]);
                } else {
                    assert(!fc2.contains_key(lk));
                    assert(!fc1.contains_key(lk));
                    assert(!file_after_move(w0, f0, npos, move_dir, i as int).contains_key(lk));
                    assert(!f0.contains_key(lk));
                }
            }
            let ghost g0 = generate@;
            match found {
                Some(chunk) => {
                    self.chunks.insert(lk, chunk);
                },
                None => {
                    generate.push(from_key(lk));
                },
            }
            proof {
                let lp = IVec2 { x: lk.0, y: lk.1 };
                assert(crate::math::key_of(lp) == lk);
                assert(f0.contains_key(lk) == old(file_chunks)@.contains_key(lk));
                if found_atoms is Some {
                    assert(generate@ == g0);
                } else {
                    assert(generate@ == g0.push(lp));
                    assert(generate@[g0.len() as int] == lp);
                }
                assert forall|p: IVec2|
                    generate@.contains(p) <==> (to_generate(npos, move_dir, old(file_chunks)@, p) && upto(
                        npos,
                        move_dir,
                        crate::math::key_of(p),
                        i + 1,
                    )) by {
                    if p == lp {
                        if found_atoms is None {
                            assert(generate@.contains(p));
                        } else if generate@.contains(p) {
                            let a = choose|a: int| 0 <= a < generate@.len() && generate@[a] == p;
                            assert(line_index(npos, move_dir, crate::math::key_of(generate@[a])) < i);
                        }
                    } else {
                        assert(crate::math::key_of(p) != lk);
                        if generate@.contains(p) {
                            let a = choose|a: int| 0 <= a < generate@.len() && generate@[a] == p;
                            assert(a < g0.len());
                            assert(g0[a] == p);
                            assert(g0.contains(p));
                        }
                        if g0.contains(p) {
                            let a = choose|a: int| 0 <= a < g0.len() && g0[a] == p;
                            assert(generate@[a] == p);
                        }
                        if to_generate(npos, move_dir, old(file_chunks)@, p) && upto(npos, move_dir, crate::math::key_of(p), i + 1) {
                            assert(line_index(npos, move_dir, crate::math::key_of(p)) != i);
                        }
                    }
                }
                let wn = world_after_move(w0, f0, npos, move_dir, i + 1);
                let wi = world_after_move(w0, f0, npos, move_dir, i as int);
                assert forall|k: (i32, i32)| #[trigger] self.world().contains_key(k) == wn.contains_key(k) && (
                self.world().contains_key(k) ==> self.world()[k] == wn[k]) by {
                    assert(atoms_view(c1) == wi);
                    if k == sk {
                        assert(!self.chunks@.contains_key(k));
                        assert(!wn.contains_key(k));
                    } else if k == lk {
                        if found_atoms is Some {
                            assert(self.chunks@[k].atoms@ == f0[lk]);
                            assert(wn.contains_key(k));
                            assert(wn[k] == f0[lk]);
                        } else {
                            assert(self.chunks@.contains_key(k) == c1.contains_key(k));
                            assert(wi.contains_key(k) == w0.contains_key(k));
                            assert(wn.contains_key(k) == w0.contains_key(k));
                            if self.chunks@.contains_key(k) {
                                assert(self.chunks@[k] == c1[k]);
                                assert(self.world()[k] == atoms_view(c1)[k]);
                                assert(wi[k] == w0[k]);
                                assert(wn[k] == w0[k]);
                            }
                        }
                    } else {
                        assert(self.chunks@.contains_key(k) == c1.contains_key(k));
                        assert(wi.contains_key(k) == wn.contains_key(k));
                        if self.chunks@.contains_key(k) {
                            assert(self.chunks@[k] == c1[k]);
                            assert(self.world()[k] == atoms_view(c1)[k]);
                            assert(wi[k] == wn[k]);
                        }
                    }
                }
                let fnn = file_after_move(w0, f0, npos, move_dir, i + 1);
                let fi = file_after_move(w0, f0, npos, move_dir, i as int);
                assert forall|k: (i32, i32)| #[trigger] atoms_view(file_chunks@).contains_key(k) == fnn.contains_key(k) && (
                atoms_view(file_chunks@).contains_key(k) ==> atoms_view(file_chunks@)[k] == fnn[k]) by {
                    if k == sk {
                        assert(w0.contains_key(sk));
                        assert(atoms_view(c1) == wi);
                        assert(wi.contains_key(sk));
                        assert(wi[sk] == w0[sk]);
                        assert(atoms_view(c1)[sk] == c1[sk].atoms@);
                        assert(c1[sk].atoms@ == w0[sk]);
                    } else {
                        assert(file_chunks@.contains_key(k) == fc1.contains_key(k));
                        assert(fi.contains_key(k) == fnn.contains_key(k));
                        assert(fi.contains_key(k) ==> fi[k] == fnn[k]);
                    }
                }
            }
            proof {
                assert(lk != sk);
                assert(fc2.contains_key(lk) == fc1.contains_key(lk));
                assert(atoms_view(fc1).contains_key(lk) == fc1.contains_key(lk));
                assert(file_after_move(w0, f0, npos, move_dir, i as int).contains_key(lk) == f0.contains_key(lk));
                assert(fc2.contains_key(lk) == f0.contains_key(lk));
                assert(self.world() =~= world_after_move(w0, f0, npos, move_dir, i + 1));
                assert(atoms_view(file_chunks@) =~= file_after_move(w0, f0, npos, move_dir, i + 1));
            }
            i += 1;
        }
        generate
    }
}

} // verus!

verus! {

/// The chunk coordinate the manager takes for a global coordinate `p` of
/// the player: negative coordinates are shifted by a chunk before the
/// truncating division.
pub open spec fn player_chunk(p: int) -> int {
    if p < 0 { tdiv(p - 64, 64) } else { tdiv(p, 64) }
}

/// How far the manager is from having the player's chunk at the middle of
/// the loaded area.
pub open spec fn spec_manager_diff(player_pos: IVec2, manager_pos: IVec2) -> (int, int) {
    (
        player_chunk(player_pos.x as int) - manager_pos.x - LOAD_WIDTH / 2,
        player_chunk(player_pos.y as int) - manager_pos.y - LOAD_HEIGHT / 2,
    )
}

/// How far, in chunks, the manager has to move so that the player's chunk is
/// at the middle of the loaded area.
pub fn manager_diff(player_pos: IVec2, manager_pos: IVec2) -> (diff: IVec2)
    requires
        player_pos.x >= i32::MIN + 64,
        player_pos.y >= i32::MIN + 64,
        i32::MIN <= spec_manager_diff(player_pos, manager_pos).0,
        spec_manager_diff(player_pos, manager_pos).0 + LOAD_WIDTH / 2 <= i32::MAX,
        i32::MIN <= spec_manager_diff(player_pos, manager_pos).1,
        spec_manager_diff(player_pos, manager_pos).1 + LOAD_HEIGHT / 2 <= i32::MAX,
    ensures
        diff.x == spec_manager_diff(player_pos, manager_pos).0,
        diff.y == spec_manager_diff(player_pos, manager_pos).1,
{
    let mut player_pos = player_pos;
    if player_pos.x < 0 {
        player_pos.x -= 64;
    }
    if player_pos.y < 0 {
        player_pos.y -= 64;
    }
    let cx = player_pos.x / 64;
    let cy = player_pos.y / 64;
    assert(-33554433 <= cx <= 33554432);
    assert(-33554433 <= cy <= 33554432);
    let diff_x = cx - manager_pos.x - LOAD_WIDTH / 2;
    let diff_y = cy - manager_pos.y - LOAD_HEIGHT / 2;
    ivec2(diff_x, diff_y)
}

/// The moves, one chunk each, that shift the manager by `diff`: all those
/// along x first, then those along y.
pub open spec fn spec_move_steps(diff: IVec2) -> Seq<MoveDir> {
    let sx: i32 = if diff.x < 0 { -1i32 } else if diff.x == 0 { 0i32 } else { 1i32 };
    let sy: i32 = if diff.y < 0 { -1i32 } else if diff.y == 0 { 0i32 } else { 1i32 };
    let nx = if diff.x < 0 { -diff.x } else { diff.x as int };
    let ny = if diff.y < 0 { -diff.y } else { diff.y as int };
    Seq::new((nx + ny) as nat, |i: int| if i < nx { MoveDir::X(sx) } else { MoveDir::Y(sy) })
}

/// The moves, one chunk each, that shift the manager by `diff`.
pub fn move_steps(diff: IVec2) -> (steps: Vec<MoveDir>)
    requires
        diff.x > i32::MIN,
        diff.y > i32::MIN,
    ensures
        steps@ == spec_move_steps(diff),
{
    let mut steps: Vec<MoveDir> = Vec::new();
    let nx = abs_i32(diff.x);
    let sx = signum_i32(diff.x);
    let ny = abs_i32(diff.y);
    let sy = signum_i32(diff.y);
    let mut i: i32 = 0;
    while i < nx
        invariant
            0 <= i <= nx,
            nx == (if diff.x < 0 { -diff.x } else { diff.x as int }),
            sx == (if diff.x < 0 { -1 } else if diff.x == 0 { 0 } else { 1int }),
            steps@ == spec_move_steps(diff).subrange(0, i as int),
        decreases nx - i,
    {
        steps.push(MoveDir::X(sx));
        i += 1;
    }
    let mut j: i32 = 0;
    while j < ny
        invariant
            0 <= j <= ny,
            nx == (if diff.x < 0 { -diff.x } else { diff.x as int }),
            ny == (if diff.y < 0 { -diff.y } else { diff.y as int }),
            sy == (if diff.y < 0 { -1 } else if diff.y == 0 { 0 } else { 1int }),
            steps@ == spec_move_steps(diff).subrange(0, nx + j),
        decreases ny - j,
    {
        steps.push(MoveDir::Y(sy));
        j += 1;
    }
    proof {
        assert(steps@ =~= spec_move_steps(diff));
    }
    steps
}

impl ChunkManager {
    /// Advances the frame counter, wrapping around after 255, and returns it.
    pub fn tick(&mut self) -> (dt: u8)
        ensures
            dt == (old(self).dt + 1) % 256,
            final(self).dt == dt,
            final(self).chunks@ == old(self).chunks@,
            final(self).pos == old(self).pos,
    {
        self.dt = self.dt.wrapping_add(1);
        self.dt
    }

    /// Puts a chunk at a position, replacing any chunk there.
    pub fn insert_chunk(&mut self, index: IVec2, chunk: Chunk)
        ensures
            final(self).chunks@ == old(self).chunks@.insert(crate::math::key_of(index), chunk),
            final(self).world() == old(self).world().insert(crate::math::key_of(index), chunk.atoms@),
            final(self).pos == old(self).pos,
            final(self).dt == old(self).dt,
    {
        self.chunks.insert(key(index), chunk);
        proof {
            assert(self.world() =~= old(self).world().insert(crate::math::key_of(index), chunk.atoms@));
        }
    }
}

} // verus!

verus! {

/// The manager position after a sequence of moves.
pub open spec fn pos_after_steps(pos: IVec2, steps: Seq<MoveDir>) -> IVec2
    decreases steps.len(),
{
    if steps.len() == 0 {
        pos
    } else {
        pos_after_steps(moved_pos(pos, steps[0]), steps.drop_first())
    }
}

/// `n` steps of sign `s` from `v`.
pub open spec fn run_end(v: int, n: nat, s: i32) -> int {
    if s == 1 { v + n } else if s == -1 { v - n } else { v }
}

proof fn lemma_x_run(pos: IVec2, n: nat, s: i32, rest: Seq<MoveDir>)
    requires
        s == 1 || s == -1 || n == 0,
        i32::MIN <= run_end(pos.x as int, n, s) <= i32::MAX,
    ensures
        pos_after_steps(pos, Seq::new(n, |i: int| MoveDir::X(s)) + rest) == pos_after_steps(
            (IVec2 { x: run_end(pos.x as int, n, s) as i32, y: pos.y }),
            rest,
        ),
    decreases n,
{
    let steps = Seq::new(n, |i: int| MoveDir::X(s)) + rest;
    if n == 0 {
        assert(steps =~= rest);
        assert(IVec2 { x: run_end(pos.x as int, n, s) as i32, y: pos.y } == pos);
    } else {
        assert(steps[0] == MoveDir::X(s));
        assert(steps.drop_first() =~= Seq::new((n - 1) as nat, |i: int| MoveDir::X(s)) + rest);
        let p1 = moved_pos(pos, MoveDir::X(s));
        assert(p1.x == pos.x + s);
        lemma_x_run(p1, (n - 1) as nat, s, rest);
    }
}

proof fn lemma_y_run(pos: IVec2, n: nat, s: i32)
    requires
        s == 1 || s == -1 || n == 0,
        i32::MIN <= run_end(pos.y as int, n, s) <= i32::MAX,
    ensures
        pos_after_steps(pos, Seq::new(n, |i: int| MoveDir::Y(s))) == (IVec2 {
            x: pos.x,
            y: run_end(pos.y as int, n, s) as i32,
        }),
    decreases n,
{
    let steps = Seq::new(n, |i: int| MoveDir::Y(s));
    if n > 0 {
        assert(steps[0] == MoveDir::Y(s));
        assert(steps.drop_first() =~= Seq::new((n - 1) as nat, |i: int| MoveDir::Y(s)));
        let p1 = moved_pos(pos, MoveDir::Y(s));
        assert(p1.y == pos.y + s);
        lemma_y_run(p1, (n - 1) as nat, s);
    }
}

/// Law: taking the moves of `move_steps` for the difference that
/// `manager_diff` computes puts the player's chunk at the middle of the
/// loaded area, where `manager_diff` gives no difference any more.
pub proof fn law_moves_center_player(player_pos: IVec2, manager_pos: IVec2)
    requires
        player_pos.x >= i32::MIN + 64,
        player_pos.y >= i32::MIN + 64,
        i32::MIN < spec_manager_diff(player_pos, manager_pos).0,
        spec_manager_diff(player_pos, manager_pos).0 + LOAD_WIDTH / 2 <= i32::MAX,
        i32::MIN < spec_manager_diff(player_pos, manager_pos).1,
        spec_manager_diff(player_pos, manager_pos).1 + LOAD_HEIGHT / 2 <= i32::MAX,
    ensures
        ({
            let d = spec_manager_diff(player_pos, manager_pos);
            let steps = spec_move_steps(IVec2 { x: d.0 as i32, y: d.1 as i32 });
            spec_manager_diff(player_pos, pos_after_steps(manager_pos, steps)) == (0int, 0int)
        }),
{
    let d = spec_manager_diff(player_pos, manager_pos);
    let diff = IVec2 { x: d.0 as i32, y: d.1 as i32 };
    let sx: i32 = if diff.x < 0 { -1i32 } else if diff.x == 0 { 0i32 } else { 1i32 };
    let sy: i32 = if diff.y < 0 { -1i32 } else if diff.y == 0 { 0i32 } else { 1i32 };
    let nx: nat = (if diff.x < 0 { -diff.x } else { diff.x as int }) as nat;
    let ny: nat = (if diff.y < 0 { -diff.y } else { diff.y as int }) as nat;
    let xs = Seq::new(nx, |i: int| MoveDir::X(sx));
    let ys = Seq::new(ny, |i: int| MoveDir::Y(sy));
    assert(spec_move_steps(diff) =~= xs + ys);
    assert(run_end(manager_pos.x as int, nx, sx) == manager_pos.x + d.0);
    assert(run_end(manager_pos.y as int, ny, sy) == manager_pos.y + d.1);
    lemma_x_run(manager_pos, nx, sx, ys);
    let mid = IVec2 { x: run_end(manager_pos.x as int, nx, sx) as i32, y: manager_pos.y };
    lemma_y_run(mid, ny, sy);
}

} // verus!

verus! {

/// Marks the entity that holds the chunk sprites.
pub struct ChunksParent;

/// The chunk position of a chunk's entity.
#[derive(Clone, Copy, Debug, PartialEq, Eq, Structural)]
pub struct ChunkComponent(pub crate::math::IVec2);

/// The rectangles, in chunks, around the rigidbodies: the chunks inside one
/// of them need a collider.
pub struct HasCollider(pub Vec<crate::math::IRect>);

impl HasCollider {
    /// A rectangle contains the chunk position.
    pub open spec fn spec_covers(&self, pos: IVec2) -> bool {
        exists|i: int| 0 <= i < self.0@.len() && (#[trigger] self.0@[i]).spec_contains(pos)
    }

    /// Whether a rectangle contains the chunk position, that is whether the
    /// chunk there needs a collider.
    pub fn covers(&self, pos: IVec2) -> (b: bool)
        ensures
            b == self.spec_covers(pos),
    {
        let mut i: usize = 0;
        while i < self.0.len()
            invariant
                i <= self.0@.len(),
                forall|j: int| 0 <= j < i ==> !(#[trigger] self.0@[j]).spec_contains(pos),
            decreases self.0@.len() - i,
        {
            if self.0[i].contains(pos) {
                return true;
            }
            i += 1;
        }
        false
    }
}

} // verus!

verus! {

/// The move in the other direction.
pub open spec fn reversed(mv: MoveDir) -> MoveDir {
    match mv {
        MoveDir::X(d) => MoveDir::X((-d) as i32),
        MoveDir::Y(d) => MoveDir::Y((-d) as i32),
    }
}

/// Law: in a group taken from the loaded chunks `m` (as `take_group` gives
/// it), the atom at an accessible local position of chunk `i` of the 3x3 is
/// the atom of the neighbouring chunk at that position, and there is none
/// where that chunk is not loaded.
pub proof fn law_taken_group_reads(m: Map<(i32, i32), Chunk>, g: ChunkGroup, p: IVec2, i: int)
    requires
        chunks_wf(m),
        m.contains_key(crate::math::key_of(g.center_pos)),
        g.center@ == m[crate::math::key_of(g.center_pos)].atoms@,
        forall|j: int|
            0 <= j < 9 && j != 4 ==> #[trigger] g.region(j) == if m.contains_key(neighbor_key(g.center_pos, j)) {
                Some(region_of(m[neighbor_key(g.center_pos, j)].atoms@, j))
            } else {
                None
            },
        crate::chunk_group::accessible(p, i),
    ensures
        g.atom_at((p, i as i32)) == if m.contains_key(neighbor_key(g.center_pos, i)) {
            Some(m[neighbor_key(g.center_pos, i)].atoms@[p.y * 64 + p.x])
        } else {
            None
        },
{
    let k = neighbor_key(g.center_pos, i);
    if i == 4 {
        assert(k == crate::math::key_of(g.center_pos));
        assert(m[k].wf());
        crate::chunk_group::law_group_reads_chunk(g.center@, m[k].atoms@, p, 4);
    } else if m.contains_key(k) {
        assert(m[k].wf());
        assert(g.region(i) == Some(region_of(m[k].atoms@, i)));
        crate::chunk_group::law_group_reads_chunk(region_of(m[k].atoms@, i), m[k].atoms@, p, i);
    } else {
        assert(g.region(i) is None);
    }
}

/// The chunk `k` lies in the area loaded when the manager is at `pos`.
pub open spec fn in_loaded_area(pos: IVec2, k: (i32, i32)) -> bool {
    pos.x <= k.0 < pos.x + LOAD_WIDTH && pos.y <= k.1 < pos.y + LOAD_HEIGHT
}

/// Law: when the loaded chunks are exactly the loaded area, after a move by
/// one chunk the chunks kept or read back from the saved ones, together
/// with those to generate, are exactly the new loaded area, and none is
/// both kept and to generate.
pub proof fn law_move_keeps_loaded_area(
    w: Map<(i32, i32), Seq<Atom>>,
    file: Map<(i32, i32), Chunk>,
    p0: IVec2,
    mv: MoveDir,
)
    requires
        match mv {
            MoveDir::X(d) => d == 1 || d == -1,
            MoveDir::Y(d) => d == 1 || d == -1,
        },
        move_fits(p0, mv),
        forall|k: (i32, i32)| #[trigger] w.contains_key(k) <==> in_loaded_area(p0, k),
    ensures
        ({
            let p1 = moved_pos(p0, mv);
            let w1 = world_after_move(w, atoms_view(file), p1, mv, line_len(mv));
            forall|k: (i32, i32)|
                #![trigger w1.contains_key(k)]
                #![trigger in_loaded_area(p1, k)]
                ((w1.contains_key(k) || to_generate(p1, mv, file, IVec2 { x: k.0, y: k.1 })) <==> in_loaded_area(p1, k))
                    && !(w1.contains_key(k) && to_generate(p1, mv, file, IVec2 { x: k.0, y: k.1 }))
        }),
{
    let p1 = moved_pos(p0, mv);
    let w1 = world_after_move(w, atoms_view(file), p1, mv, line_len(mv));
    assert forall|k: (i32, i32)|
        ((w1.contains_key(k) || to_generate(p1, mv, file, IVec2 { x: k.0, y: k.1 })) <==> in_loaded_area(p1, k))
            && !(w1.contains_key(k) && to_generate(p1, mv, file, IVec2 { x: k.0, y: k.1 })) by {
        assert(w.contains_key(k) <==> in_loaded_area(p0, k));
        assert(atoms_view(file).contains_key(k) <==> file.contains_key(k));
    }
}

/// Law: moving the loaded area by one chunk and back brings back, from the
/// saved world, the very chunks that the first move left behind, whatever
/// was generated or changed in between (`w1` is the world before the move
/// back, `f1` what the first move saved).
pub proof fn law_move_back_restores(
    w0: Map<(i32, i32), Seq<Atom>>,
    f0: Map<(i32, i32), Seq<Atom>>,
    w1: Map<(i32, i32), Seq<Atom>>,
    p0: IVec2,
    mv: MoveDir,
    k: (i32, i32),
)
    requires
        match mv {
            MoveDir::X(d) => d == 1 || d == -1,
            MoveDir::Y(d) => d == 1 || d == -1,
        },
        move_fits(p0, mv),
        saved_line(moved_pos(p0, mv), mv, k) && upto(moved_pos(p0, mv), mv, k, line_len(mv)),
        w0.contains_key(k),
    ensures
        ({
            let p1 = moved_pos(p0, mv);
            let f1 = file_after_move(w0, f0, p1, mv, line_len(mv));
            let w2 = world_after_move(w1, f1, moved_pos(p1, reversed(mv)), reversed(mv), line_len(mv));
            &&& moved_pos(p1, reversed(mv)) == p0
            &&& w2.contains_key(k)
            &&& w2[k] == w0[k]
        }),
{
}

} // verus!

verus! {

/// The chunk at `p` is among the centres that `update_centers` gives for the
/// step `toff`, the dirty rectangles being `d` and the loaded chunks `m`.
pub open spec fn selected_center(
    d: Map<(i32, i32), crate::math::URect>,
    m: Map<(i32, i32), Chunk>,
    toff: (i32, i32),
    manager_pos: IVec2,
    p: IVec2,
) -> bool {
    d.contains_key(crate::math::key_of(p)) && m.contains_key(crate::math::key_of(p)) && spec_is_update_center(
        p,
        toff,
        manager_pos,
    )
}

/// Law: over the four update steps, each loaded chunk with a dirty
/// rectangle is the centre of a group in exactly one step, and a chunk that
/// is not loaded, or has no dirty rectangle, in none.
pub proof fn law_dirty_chunks_centred_once(
    d: Map<(i32, i32), crate::math::URect>,
    m: Map<(i32, i32), Chunk>,
    manager_pos: IVec2,
    p: IVec2,
)
    ensures
        ({
            let k = crate::math::key_of(p);
            let t = (
                parity(p.x + parity(manager_pos.x as int)) as i32,
                parity(p.y + parity(manager_pos.y as int)) as i32,
            );
            &&& d.contains_key(k) && m.contains_key(k) ==> selected_center(d, m, t, manager_pos, p)
            &&& forall|tx: i32, ty: i32|
                0 <= tx <= 1 && 0 <= ty <= 1 && #[trigger] selected_center(d, m, (tx, ty), manager_pos, p) ==> (tx, ty) == t
            &&& !(d.contains_key(k) && m.contains_key(k)) ==> forall|tx: i32, ty: i32|
                !#[trigger] selected_center(d, m, (tx, ty), manager_pos, p)
        }),
{
    let t0 = parity(p.x + parity(manager_pos.x as int));
    let t1 = parity(p.y + parity(manager_pos.y as int));
    assert(0 <= t0 <= 1 && 0 <= t1 <= 1);
    law_each_chunk_one_step(p, manager_pos, t0 as i32, t1 as i32);
    assert forall|tx: i32, ty: i32|
        0 <= tx <= 1 && 0 <= ty <= 1 && #[trigger] selected_center(d, m, (tx, ty), manager_pos, p) implies (tx, ty) == (
        t0 as i32,
        t1 as i32,
    ) by {
        law_each_chunk_one_step(p, manager_pos, tx, ty);
    }
}

/// Law: each chunk is the centre of a group in exactly one of the four
/// update steps, the one whose offsets match its parities (shifted by those
/// of the manager), so that the four steps update every dirty chunk once.
pub proof fn law_each_chunk_one_step(chunk_pos: IVec2, manager_pos: IVec2, tx: i32, ty: i32)
    requires
        0 <= tx <= 1,
        0 <= ty <= 1,
    ensures
        spec_is_update_center(chunk_pos, (tx, ty), manager_pos) <==> (tx == parity(
            chunk_pos.x + parity(manager_pos.x as int),
        ) && ty == parity(chunk_pos.y + parity(manager_pos.y as int))),
{
}

} // verus!
