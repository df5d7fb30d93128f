use vstd::prelude::*;
use crate::atom::{Atom, default_atom, object_atom};
use crate::actors::ids_known;
use crate::chunk_manager::{ChunkManager, atom_index};
use crate::manager_api::{ChunkPos, D1, RectMap, chunk_pos_at, global_coord_ok, global_to_chunk, rects_wf, with_neighbors, update_dirty_rects_3x3};
use crate::materials::Materials;
use crate::math::{IVec2, URect};

verus! {

/// A body of atoms that physics moves as a whole.
pub struct Rigidbody {
    pub atoms: Vec<Atom>,
    pub width: u8,
    pub height: u8,
    // Positions to remove Object atom later
    pub filled: Vec<ChunkPos>,
}

/// The atom that the `i`-th pixel of RGBA bytes gives: a rock atom of the
/// pixel's colour where the pixel is not transparent, the empty atom where it
/// is.
pub open spec fn pixel_atom(data: Seq<u8>, i: int) -> Atom {
    if data[4 * i + 3] > 0 {
        Atom { id: 8, color: [data[4 * i], data[4 * i + 1], data[4 * i + 2], data[4 * i + 3]], ..default_atom() }
    } else {
        default_atom()
    }
}

/// The atoms of an image, given as RGBA bytes, one per whole pixel.
pub fn image_atoms(data: &Vec<u8>) -> (atoms: Vec<Atom>)
    ensures
        atoms@.len() == data@.len() / 4,
        forall|i: int| 0 <= i < atoms@.len() ==> #[trigger] atoms@[i] == pixel_atom(data@, i),
{
    let mut atoms: Vec<Atom> = Vec::new();
    let mut j: usize = 0;
    while data.len() - j >= 4
        invariant
            j == 4 * atoms@.len(),
            j <= data@.len(),
            atoms@.len() <= data@.len() / 4,
            forall|i: int| 0 <= i < atoms@.len() ==> #[trigger] atoms@[i] == pixel_atom(data@, i),
        decreases data@.len() - j,
    {
        let pixel = [data[j], data[j + 1], data[j + 2], data[j + 3]];
        if pixel[3] > 0 {
            atoms.push(Atom { id: 8, color: pixel, ..Default::default() });
        } else {
            atoms.push(Atom::default())
        }
        j += 4;
    }
    atoms
}

/// Which pixels of an image, given as RGBA bytes, are not transparent (what
/// the collider is traced from).
pub fn image_values(data: &Vec<u8>) -> (values: Vec<bool>)
    ensures
        values@.len() == data@.len() / 4,
        forall|i: int| 0 <= i < values@.len() ==> #[trigger] values@[i] == (data@[4 * i + 3] > 0),
{
    let mut values: Vec<bool> = Vec::new();
    let mut j: usize = 0;
    while data.len() - j >= 4
        invariant
            j == 4 * values@.len(),
            j <= data@.len(),
            values@.len() <= data@.len() / 4,
            forall|i: int| 0 <= i < values@.len() ==> #[trigger] values@[i] == (data@[4 * i + 3] > 0),
        decreases data@.len() - j,
    {
        values.push(data[j + 3] > 0);
        j += 4;
    }
    values
}

/// The world, the update rectangles and the filled positions.
pub type FillState = (Map<(i32, i32), Seq<Atom>>, Map<(i32, i32), URect>, Seq<ChunkPos>);

/// One atom of a rigidbody laid at `cp`: a solid atom marks the update
/// rectangles around `cp`, and takes the place where it is loaded and void,
/// which is then remembered.
pub open spec fn fill_step(s: FillState, materials: Materials, atom: Atom, cp: ChunkPos) -> FillState {
    if materials.of(atom.id).is_solid_spec() {
        let rects = with_neighbors(s.1, cp, 9);
        let k = crate::math::key_of(cp.chunk);
        let j = atom_index(cp);
        if s.0.contains_key(k) && j < s.0[k].len() && materials.of(s.0[k][j].id).is_void_spec() {
            (s.0.insert(k, s.0[k].update(j, object_atom())), rects, s.2.push(cp))
        } else {
            (s.0, rects, s.2)
        }
    } else {
        s
    }
}

/// The first `n` atoms of a rigidbody laid at the given global positions.
pub open spec fn fill_fold(
    s: FillState,
    materials: Materials,
    atoms: Seq<Atom>,
    positions: Seq<IVec2>,
    n: nat,
) -> FillState
    decreases n,
{
    if n == 0 {
        s
    } else {
        let p = positions[n - 1];
        fill_step(
            fill_fold(s, materials, atoms, positions, (n - 1) as nat),
            materials,
            atoms[n - 1],
            chunk_pos_at(p.x as int, p.y as int),
        )
    }
}

/// A position a rigidbody atom may be laid at.
pub open spec fn fill_pos_ok(p: IVec2) -> bool {
    global_coord_ok(p.x as int) && global_coord_ok(p.y as int) && chunk_pos_at(p.x as int, p.y as int).in_range()
}

impl Rigidbody {
    /// Lays the atoms of the rigidbody into the world, the `i`-th at global
    /// position `positions[i]` (where the physics has moved and turned it):
    /// the solid ones take the void places they fall on, which are
    /// remembered in `filled`, and mark the update rectangles around them.
    pub fn fill(
        &mut self,
        chunk_manager: &mut ChunkManager,
        dirty_rects: &mut RectMap,
        materials: &Materials,
        positions: &Vec<IVec2>,
    )
        requires
            old(chunk_manager).wf(),
            ids_known(*old(chunk_manager), *materials),
            rects_wf(old(dirty_rects)@),
            positions@.len() <= old(self).atoms@.len(),
            forall|i: int| 0 <= i < old(self).atoms@.len() ==> ((#[trigger] old(self).atoms@[i]).id as int) < materials.0.len(),
            forall|i: int| 0 <= i < positions@.len() ==> fill_pos_ok(#[trigger] positions@[i]),
            materials.0.len() > 1,
        ensures
            ({
                let s = fill_fold(
                    (old(chunk_manager).world(), old(dirty_rects)@, old(self).filled@),
                    *materials,
                    old(self).atoms@,
                    positions@,
                    positions@.len() as nat,
                );
                &&& final(chunk_manager).world() == s.0
                &&& final(dirty_rects)@ == s.1
                &&& final(self).filled@ == s.2
            }),
            final(self).atoms@ == old(self).atoms@,
            final(self).width == old(self).width,
            final(self).height == old(self).height,
            final(chunk_manager).wf(),
            ids_known(*final(chunk_manager), *materials),
            rects_wf(final(dirty_rects)@),
            final(chunk_manager).chunks@.dom() == old(chunk_manager).chunks@.dom(),
            final(chunk_manager).pos == old(chunk_manager).pos,
            final(chunk_manager).dt == old(chunk_manager).dt,
    {
        let mut i: usize = 0;
        while i < positions.len()
            invariant
                i <= positions@.len(),
                positions@.len() <= self.atoms@.len(),
                self.atoms@ == old(self).atoms@,
                self.width == old(self).width,
                self.height == old(self).height,
                forall|k: int| 0 <= k < self.atoms@.len() ==> ((#[trigger] self.atoms@[k]).id as int) < materials.0.len(),
                forall|k: int| 0 <= k < positions@.len() ==> fill_pos_ok(#[trigger] positions@[k]),
                materials.0.len() > 1,
                chunk_manager.wf(),
                ids_known(*chunk_manager, *materials),
                rects_wf(dirty_rects@),
                chunk_manager.chunks@.dom() == old(chunk_manager).chunks@.dom(),
                chunk_manager.pos == old(chunk_manager).pos,
                chunk_manager.dt == old(chunk_manager).dt,
                ({
                    let s = fill_fold(
                        (old(chunk_manager).world(), old(dirty_rects)@, old(self).filled@),
                        *materials,
                        old(self).atoms@,
                        positions@,
                        i as nat,
                    );
                    &&& chunk_manager.world() == s.0
                    &&& dirty_rects@ == s.1
                    &&& self.filled@ == s.2
                }),
            decreases positions@.len() - i,
        {
            let p = positions[i];
            assert(fill_pos_ok(positions@[i as int]));
            let chunk_pos = global_to_chunk(p);
            let rotated_atom = self.atoms[i];
            let ghost s0 = (chunk_manager.world(), dirty_rects@, self.filled@);
            if materials.get_from_atom(&rotated_atom).is_solid() {
                update_dirty_rects_3x3(dirty_rects, chunk_pos);
                let is_void = match chunk_manager.get_atom(&chunk_pos) {
                    Some(atom) => {
                        proof {
                            let k = crate::math::key_of(chunk_pos.chunk);
                            assert(chunk_manager.world()[k][atom_index(chunk_pos)] == *atom);
                        }
                        materials.get_from_atom(atom).is_void()
                    },
                    None => false,
                };
                if is_void {
                    chunk_manager.set_atom(chunk_pos, Atom::object());
                    self.filled.push(chunk_pos);
                    proof {
                        let k = crate::math::key_of(chunk_pos.chunk);
                        assert forall|k2: (i32, i32), j: int|
                            chunk_manager.world().contains_key(k2) && 0 <= j < chunk_manager.world()[k2].len()
                                implies (#[trigger] chunk_manager.world()[k2][j]).id < materials.0.len() by {
                            if k2 == k && j == atom_index(chunk_pos) {
                            } else {
                                assert(chunk_manager.world()[k2][j] == s0.0[k2][j]);
                            }
                        }
                    }
                }
            }
            proof {
                assert(fill_step(s0, *materials, old(self).atoms@[i as int], chunk_pos) == (
                    chunk_manager.world(),
                    dirty_rects@,
                    self.filled@,
                ));
            }
            i += 1;
        }
    }
}

/// The positions of `cps` hold the cell `j` of chunk `k`.
pub open spec fn hit(cps: Seq<ChunkPos>, k: (i32, i32), j: int) -> bool {
    exists|i: int| 0 <= i < cps.len() && crate::math::key_of((#[trigger] cps[i]).chunk) == k && atom_index(cps[i]) == j
}

/// The world once the object atoms at the positions of `cps` are emptied.
pub open spec fn cleared(w: Map<(i32, i32), Seq<Atom>>, materials: Materials, cps: Seq<ChunkPos>) -> Map<
    (i32, i32),
    Seq<Atom>,
> {
    Map::new(
        |k: (i32, i32)| w.contains_key(k),
        |k: (i32, i32)|
            Seq::new(
                w[k].len(),
                |j: int|
                    if hit(cps, k, j) && materials.of(w[k][j].id).is_object_spec() {
                        default_atom()
                    } else {
                        w[k][j]
                    },
            ),
    )
}

impl Rigidbody {
    /// Empties the object atoms at the positions the rigidbody filled, and
    /// forgets them.
    pub fn unfill(&mut self, chunk_manager: &mut ChunkManager, materials: &Materials)
        requires
            old(chunk_manager).wf(),
            ids_known(*old(chunk_manager), *materials),
            materials.0.len() > 0,
            forall|i: int| 0 <= i < old(self).filled@.len() ==> (#[trigger] old(self).filled@[i]).wf(),
        ensures
            final(self).filled@.len() == 0,
            final(self).atoms@ == old(self).atoms@,
            final(self).width == old(self).width,
            final(self).height == old(self).height,
            final(chunk_manager).world() == cleared(old(chunk_manager).world(), *materials, old(self).filled@),
            final(chunk_manager).wf(),
            ids_known(*final(chunk_manager), *materials),
            final(chunk_manager).chunks@.dom() == old(chunk_manager).chunks@.dom(),
            final(chunk_manager).pos == old(chunk_manager).pos,
            final(chunk_manager).dt == old(chunk_manager).dt,
    {
        let ghost w0 = chunk_manager.world();
        let ghost all = self.filled@;
        proof {
            let c = cleared(w0, *materials, all.subrange(all.len() as int, all.len() as int));
            assert forall|k: (i32, i32)| #[trigger] c.contains_key(k) implies c[k] =~= w0[k] by {
                assert forall|j: int| 0 <= j < w0[k].len() implies c[k][j] == w0[k][j] by {
                    assert(!hit(all.subrange(all.len() as int, all.len() as int), k, j));
                }
            }
            assert(c =~= w0);
        }
        while self.filled.len() > 0
            invariant
                self.filled@.len() <= all.len(),
                self.filled@ == all.subrange(0, self.filled@.len() as int),
                self.atoms@ == old(self).atoms@,
                self.width == old(self).width,
                self.height == old(self).height,
                forall|i: int| 0 <= i < all.len() ==> (#[trigger] all[i]).wf(),
                w0 == old(chunk_manager).world(),
                chunk_manager.wf(),
                ids_known(*chunk_manager, *materials),
                materials.0.len() > 0,
                chunk_manager.world() == cleared(w0, *materials, all.subrange(self.filled@.len() as int, all.len() as int)),
                chunk_manager.chunks@.dom() == old(chunk_manager).chunks@.dom(),
                chunk_manager.pos == old(chunk_manager).pos,
                chunk_manager.dt == old(chunk_manager).dt,
            decreases self.filled@.len(),
        {
            let ghost n = self.filled@.len() as int;
            assert(self.filled@[n - 1] == all[n - 1]);
            let chunk_pos = match self.filled.pop() {
                Some(cp) => cp,
                None => {
                    proof {
                        assert(false);
                    }
                    return;
                },
            };
            assert(chunk_pos == all[n - 1]);
            assert(chunk_pos.wf());
            assert(chunk_pos.atom.d1_ok());
            let ghost before = chunk_manager.world();
            let is_object = match chunk_manager.get_atom(&chunk_pos) {
                Some(atom) => {
                    proof {
                        let k = crate::math::key_of(chunk_pos.chunk);
                        assert(chunk_manager.world()[k][atom_index(chunk_pos)] == *atom);
                    }
                    materials.get_from_atom(atom).is_object()
                },
                None => false,
            };
            if is_object {
                chunk_manager.set_atom(chunk_pos, Atom::default());
            }
            proof {
                let s_old = all.subrange(n, all.len() as int);
                let s_new = all.subrange(n - 1, all.len() as int);
                let k0 = crate::math::key_of(chunk_pos.chunk);
                let j0 = atom_index(chunk_pos);
                assert(s_new[0] == chunk_pos);
                assert forall|k: (i32, i32), j: int| #[trigger] hit(s_new, k, j) <==> (hit(s_old, k, j) || (k == k0 && j
                    == j0)) by {
                    if hit(s_new, k, j) {
                        let i = choose|i: int|
                            0 <= i < s_new.len() && crate::math::key_of((#[trigger] s_new[i]).chunk) == k && atom_index(
                                s_new[i],
                            ) == j;
                        if i > 0 {
                            assert(s_old[i - 1] == s_new[i]);
                        }
                    }
                    if hit(s_old, k, j) {
                        let i = choose|i: int|
                            0 <= i < s_old.len() && crate::math::key_of((#[trigger] s_old[i]).chunk) == k && atom_index(
                                s_old[i],
                            ) == j;
                        assert(s_new[i + 1] == s_old[i]);
                    }
                    if k == k0 && j == j0 {
                        assert(s_new[0] == chunk_pos);
                    }
                }
                let target = cleared(w0, *materials, s_new);
                assert forall|k: (i32, i32)| #[trigger] target.contains_key(k) implies chunk_manager.world().contains_key(k)
                    && chunk_manager.world()[k] =~= target[k] by {
                    assert forall|j: int| 0 <= j < w0[k].len() implies chunk_manager.world()[k][j] == target[k][j] by {
                        assert(hit(s_new, k, j) == (hit(s_old, k, j) || (k == k0 && j == j0)));
                    }
                }
                assert(chunk_manager.world() =~= target);
                assert forall|k2: (i32, i32), j: int|
                    chunk_manager.world().contains_key(k2) && 0 <= j < chunk_manager.world()[k2].len()
                        implies (#[trigger] chunk_manager.world()[k2][j]).id < materials.0.len() by {
                    if is_object && k2 == k0 && j == j0 {
                    } else {
                        assert(chunk_manager.world()[k2][j] == before[k2][j]);
                    }
                }
                assert(self.filled@ =~= all.subrange(0, n - 1));
            }
        }
        proof {
            assert(all.subrange(0, all.len() as int) =~= all);
        }
    }
}

} // verus!

verus! {

/// What laying the first `n` atoms of a body keeps true of the world `w` it
/// started from, with nothing filled yet: the filled cells were void in `w`
/// and now hold objects, the others are as in `w`.
proof fn lemma_fill_fold(
    w: Map<(i32, i32), Seq<Atom>>,
    r: Map<(i32, i32), URect>,
    materials: Materials,
    atoms: Seq<Atom>,
    positions: Seq<IVec2>,
    n: nat,
)
    requires
        materials.of(1).is_object_spec(),
        n <= positions.len(),
        n <= atoms.len(),
    ensures
        ({
            let s = fill_fold((w, r, Seq::empty()), materials, atoms, positions, n);
            &&& s.0.dom() == w.dom()
            &&& forall|k: (i32, i32)| #[trigger] s.0.contains_key(k) ==> s.0[k].len() == w[k].len()
            &&& forall|k: (i32, i32), j: int|
                w.contains_key(k) && 0 <= j < w[k].len() && #[trigger] hit(s.2, k, j) ==> s.0[k][j] == object_atom()
                    && materials.of(w[k][j].id).is_void_spec()
            &&& forall|k: (i32, i32), j: int|
                w.contains_key(k) && 0 <= j < w[k].len() && !#[trigger] hit(s.2, k, j) ==> s.0[k][j] == w[k][j]
        }),
    decreases n,
{
    if n > 0 {
        lemma_fill_fold(w, r, materials, atoms, positions, (n - 1) as nat);
        let s = fill_fold((w, r, Seq::empty()), materials, atoms, positions, (n - 1) as nat);
        let p = positions[n - 1];
        let cp = chunk_pos_at(p.x as int, p.y as int);
        let t = fill_step(s, materials, atoms[n - 1], cp);
        let k0 = crate::math::key_of(cp.chunk);
        let j0 = atom_index(cp);
        if materials.of(atoms[n - 1].id).is_solid_spec() && s.0.contains_key(k0) && j0 < s.0[k0].len()
            && materials.of(s.0[k0][j0].id).is_void_spec() {
            assert(t.2 == s.2.push(cp));
            assert forall|k: (i32, i32), j: int| #[trigger] hit(t.2, k, j) <==> (hit(s.2, k, j) || (k == k0 && j == j0)) by {
                if hit(t.2, k, j) {
                    let i = choose|i: int|
                        0 <= i < t.2.len() && crate::math::key_of((#[trigger] t.2[i]).chunk) == k && atom_index(t.2[i])
                            == j;
                    if i < s.2.len() {
                        assert(s.2[i] == t.2[i]);
                    }
                }
                if hit(s.2, k, j) {
                    let i = choose|i: int|
                        0 <= i < s.2.len() && crate::math::key_of((#[trigger] s.2[i]).chunk) == k && atom_index(s.2[i])
                            == j;
                    assert(t.2[i] == s.2[i]);
                }
                if k == k0 && j == j0 {
                    assert(t.2[s.2.len() as int] == cp);
                }
            }
            assert(!hit(s.2, k0, j0)) by {
                if hit(s.2, k0, j0) {
                    assert(s.0[k0][j0] == object_atom());
                }
            }
            assert(t.0.dom() =~= w.dom());
        } else {
            assert(t.0 == s.0);
            assert(t.2 == s.2);
        }
    }
}

/// Law: laying a rigidbody's atoms into the world and then emptying what it
/// filled (with nothing in between) gives back the world, except that the
/// cells the body took, which were void, now hold the empty atom.
pub proof fn law_rigidbody_fill_unfill(
    w: Map<(i32, i32), Seq<Atom>>,
    r: Map<(i32, i32), URect>,
    materials: Materials,
    atoms: Seq<Atom>,
    positions: Seq<IVec2>,
)
    requires
        materials.of(1).is_object_spec(),
        positions.len() <= atoms.len(),
    ensures
        ({
            let s = fill_fold((w, r, Seq::empty()), materials, atoms, positions, positions.len());
            let back = cleared(s.0, materials, s.2);
            &&& back.dom() == w.dom()
            &&& forall|k: (i32, i32)| #[trigger] back.contains_key(k) ==> back[k].len() == w[k].len()
            &&& forall|k: (i32, i32), j: int|
                w.contains_key(k) && 0 <= j < w[k].len() ==> #[trigger] back[k][j] == if hit(s.2, k, j) {
                    default_atom()
                } else {
                    w[k][j]
                }
            &&& forall|k: (i32, i32), j: int|
                w.contains_key(k) && 0 <= j < w[k].len() && #[trigger] hit(s.2, k, j) ==> materials.of(
                    w[k][j].id,
                ).is_void_spec()
        }),
{
    lemma_fill_fold(w, r, materials, atoms, positions, positions.len());
    let s = fill_fold((w, r, Seq::empty()), materials, atoms, positions, positions.len());
    let back = cleared(s.0, materials, s.2);
    assert(back.dom() =~= w.dom());
}

} // verus!
