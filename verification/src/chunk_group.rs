use vstd::prelude::*;
use crate::atom::Atom;
use crate::math::{IVec2, ivec2};
use crate::consts::{CHUNK_LENGHT, HALF_CHUNK_LENGHT, HALF_CHUNK_LEN, QUARTER_CHUNK_LEN};
use crate::manager_api::{D1, tdiv, tmod};

verus! {

/// The atoms an update step may touch: the whole centre chunk, and the half
/// or quarter of each of the 8 surrounding chunks that faces it.
///
/// The 3x3 chunks are numbered `0..9` row by row, `4` being the centre;
/// corners `0, 2, 6, 8` and sides `1, 3, 5, 7` are stored in `corners` and
/// `sides` at the place that `surrounding_idx` gives them.
pub struct ChunkGroup {
    pub center: Vec<Atom>,
    pub corners: Vec<Option<Vec<Atom>>>,
    pub sides: Vec<Option<Vec<Atom>>>,
    /// Position of the center chunk.
    pub center_pos: IVec2,
}

/// The contents of an optional vector.
pub open spec fn opt_view(o: Option<Vec<Atom>>) -> Option<Seq<Atom>> {
    match o {
        Some(v) => Some(v@),
        None => None,
    }
}

/// Chunk `i` of the 3x3 is a corner.
pub open spec fn is_corner(i: int) -> bool {
    i == 0 || i == 2 || i == 6 || i == 8
}

/// Chunk `i` of the 3x3 is a side.
pub open spec fn is_side(i: int) -> bool {
    i == 1 || i == 3 || i == 5 || i == 7
}

/// Where `corners` or `sides` keeps chunk `i` of the 3x3.
pub open spec fn surrounding(i: int) -> int {
    if i == 0 || i == 1 {
        0
    } else if i == 2 || i == 3 {
        1
    } else if i == 6 || i == 5 {
        2
    } else {
        3
    }
}

/// Width of the part of chunk `i` that the group holds.
pub open spec fn region_width(i: int) -> int {
    if i == 4 || i == 1 || i == 7 { 64 } else { 32 }
}

/// Height of the part of chunk `i` that the group holds.
pub open spec fn region_height(i: int) -> int {
    if i == 4 || i == 3 || i == 5 { 64 } else { 32 }
}

/// Number of atoms of the part of chunk `i` that the group holds.
pub open spec fn region_len(i: int) -> int {
    region_width(i) * region_height(i)
}

/// Column of chunk `i` where the part that the group holds begins.
pub open spec fn region_x0(i: int) -> int {
    if i == 0 || i == 3 || i == 6 { 32 } else { 0 }
}

/// Row of chunk `i` where the part that the group holds begins.
pub open spec fn region_y0(i: int) -> int {
    if i == 0 || i == 1 || i == 2 { 32 } else { 0 }
}

/// The local position `p` of chunk `i` lies in the part that the group holds.
pub open spec fn accessible(p: IVec2, i: int) -> bool {
    &&& 0 <= i < 9
    &&& region_x0(i) <= p.x < region_x0(i) + region_width(i)
    &&& region_y0(i) <= p.y < region_y0(i) + region_height(i)
}

/// Where, in the part of chunk `i` that the group holds, the local position
/// `p` is stored.
pub open spec fn slot(p: IVec2, i: int) -> int {
    (p.y - region_y0(i)) * region_width(i) + (p.x - region_x0(i))
}

/// The local position of global position `p` (in `0..192`): the position in
/// its chunk, and the index of its chunk in the 3x3.
pub open spec fn local_of(p: IVec2) -> (IVec2, i32) {
    (IVec2 { x: (p.x % 64) as i32, y: (p.y % 64) as i32 }, ((p.y / 64) * 3 + p.x / 64) as i32)
}

/// The global position (in `0..192`) of local position `p` of chunk `i`.
pub open spec fn global_of(p: IVec2, i: int) -> IVec2 {
    IVec2 { x: (p.x + 64 * (i % 3)) as i32, y: (p.y + 64 * (i / 3)) as i32 }
}

/// A global position within 32 atoms of the centre chunk.
pub open spec fn near_center(p: IVec2) -> bool {
    32 <= p.x < 160 && 32 <= p.y < 160
}

impl ChunkGroup {
    /// The atoms the group holds of chunk `i` of the 3x3, if it holds that chunk.
    pub open spec fn region(self, i: int) -> Option<Seq<Atom>> {
        if i == 4 {
            Some(self.center@)
        } else if is_corner(i) {
            opt_view(self.corners@[surrounding(i)])
        } else if is_side(i) {
            opt_view(self.sides@[surrounding(i)])
        } else {
            None
        }
    }

    /// The vectors have the sizes of the parts of the chunks they hold.
    pub open spec fn wf(self) -> bool {
        &&& self.center.len() == 4096
        &&& self.corners.len() == 4
        &&& self.sides.len() == 4
        &&& forall|i: int|
            0 <= i < 9 && #[trigger] self.region(i) is Some ==> self.region(i).unwrap().len()
                == region_len(i)
    }

    /// The atom at local position `idx`, if the group holds its chunk.
    pub open spec fn atom_at(self, idx: (IVec2, i32)) -> Option<Atom> {
        let i = idx.1 as int;
        if 0 <= i < 9 && self.region(i) is Some {
            Some(self.region(i).unwrap()[slot(idx.0, i)])
        } else {
            None
        }
    }

    /// The group once the atom at local position `idx` is replaced by `atom`.
    pub open spec fn with_atom(self, idx: (IVec2, i32), atom: Atom) -> Seq<Option<Seq<Atom>>> {
        let i = idx.1 as int;
        self.regions().update(i, Some(self.region(i).unwrap().update(slot(idx.0, i), atom)))
    }

    /// The nine regions, in the numbering of the 3x3.
    pub open spec fn regions(self) -> Seq<Option<Seq<Atom>>> {
        Seq::new(9, |i: int| self.region(i))
    }

    /// The group holds the chunk of local position `idx`, and `idx` lies in the
    /// part of that chunk it holds.
    pub open spec fn holds(self, idx: (IVec2, i32)) -> bool {
        accessible(idx.0, idx.1 as int) && self.region(idx.1 as int) is Some
    }
}

} // verus!

verus! {

/// The local position is one that `get_local` may be asked for: inside the
/// part the group holds if it holds that chunk, and small enough for the
/// index arithmetic otherwise.
pub open spec fn local_ok(g: ChunkGroup, idx: (IVec2, i32)) -> bool {
    0 <= idx.1 < 9 ==> if g.region(idx.1 as int) is Some {
        accessible(idx.0, idx.1 as int)
    } else {
        -1000000 <= idx.0.x <= 1000000 && -1000000 <= idx.0.y <= 1000000
    }
}

impl ChunkGroup {
    /// The chunk, around `center_pos`, of chunk `group_idx` of the 3x3.
    pub fn group_to_chunk(center_pos: IVec2, group_idx: i32) -> (pos: IVec2)
        requires
            i32::MIN <= center_pos.x + tmod(group_idx as int, 3) - 1 <= i32::MAX,
            i32::MIN <= center_pos.y + tdiv(group_idx as int, 3) - 1 <= i32::MAX,
        ensures
            pos.x == center_pos.x + tmod(group_idx as int, 3) - 1,
            pos.y == center_pos.y + tdiv(group_idx as int, 3) - 1,
    {
        let x_diff = group_idx % 3 - 1;
        let y_diff = group_idx / 3 - 1;

        let mut pos = center_pos;
        pos.x += x_diff;
        pos.y += y_diff;

        pos
    }

    /// Where `corners` or `sides` keeps chunk `idx` of the 3x3.
    #[inline]
    pub fn surrounding_idx(idx: i32) -> (r: i32)
        requires
            is_corner(idx as int) || is_side(idx as int),
        ensures
            r == surrounding(idx as int),
    {
        match idx {
            0 | 1 => 0,
            2 | 3 => 1,
            6 | 5 => 2,
            _ => 3,
        }
    }

    pub fn get_local(&self, idx: (IVec2, i32)) -> (r: Option<&Atom>)
        requires
            self.wf(),
            local_ok(*self, idx),
        ensures
            match r {
                Some(a) => self.atom_at(idx) == Some(*a),
                None => self.atom_at(idx) is None,
            },
    {
        let mut pos = idx.0;
        match idx.1 {
            // Center
            4 => {
                proof {
                    assert(self.region(4) is Some);
                }
                Some(&self.center[idx.0.d1()])
            },
            // Corners
            0 | 2 | 6 | 8 => {
                // Offset position
                if idx.1 == 0 || idx.1 == 6 {
                    pos.x -= HALF_CHUNK_LENGHT as i32;
                }
                if idx.1 == 0 || idx.1 == 2 {
                    pos.y -= HALF_CHUNK_LENGHT as i32;
                }

                let index = pos.y * HALF_CHUNK_LENGHT as i32 + pos.x;
                let corner_index = ChunkGroup::surrounding_idx(idx.1) as usize;

                if let Some(corners) = &self.corners[corner_index] {
                    proof {
                        assert(self.region(idx.1 as int) is Some);
                    }
                    Some(&corners[index as usize])
                } else {
                    None
                }
            },
            // Sides
            1 | 3 | 5 | 7 => {
                // Offset position
                if idx.1 == 1 {
                    pos.y -= HALF_CHUNK_LENGHT as i32
                } else if idx.1 == 3 {
                    pos.x -= HALF_CHUNK_LENGHT as i32
                }

                // Gets width accordingly if side is a top/down or left/right
                let width = if idx.1 == 3 || idx.1 == 5 {
                    HALF_CHUNK_LENGHT
                } else {
                    CHUNK_LENGHT
                } as i32;

                proof {
                    assert(-1000032 <= pos.y <= 1000032);
                    assert(-65000000 <= pos.y * width <= 65000000) by (nonlinear_arith)
                        requires
                            -1000032 <= pos.y <= 1000032,
                            width == 32 || width == 64,
                    ;
                }
                let index = pos.y * width + pos.x;
                let side_index = ChunkGroup::surrounding_idx(idx.1) as usize;

                if let Some(sides) = &self.sides[side_index] {
                    proof {
                        assert(self.region(idx.1 as int) is Some);
                        assert(0 <= pos.x < width);
                        assert(0 <= index < 2048) by (nonlinear_arith)
                            requires
                                index == pos.y * width + pos.x,
                                0 <= pos.x < width,
                                0 <= pos.y,
                                (width == 32 && pos.y < 64) || (width == 64 && pos.y < 32),
                        ;
                    }
                    Some(&sides[index as usize])
                } else {
                    None
                }
            },
            _ => None,
        }
    }
}


} // verus!

verus! {

impl ChunkGroup {
    /// Replaces the atom at local position `idx`; tells whether the group
    /// holds its chunk (it changes nothing where it does not).
    pub fn set_local(&mut self, idx: (IVec2, i32), atom: Atom) -> (b: bool)
        requires
            old(self).wf(),
            local_ok(*old(self), idx),
        ensures
            b == (old(self).atom_at(idx) is Some),
            b ==> final(self).regions() == old(self).with_atom(idx, atom),
            !b ==> *final(self) == *old(self),
            final(self).center_pos == old(self).center_pos,
            final(self).wf(),
    {
        let mut pos = idx.0;
        match idx.1 {
            // Center
            4 => {
                let i = idx.0.d1();
                self.center.set(i, atom);
                proof {
                    assert(self.regions() =~= old(self).with_atom(idx, atom));
                    assert forall|j: int| 0 <= j < 9 && #[trigger] self.region(j) is Some implies self.region(j).unwrap().len()
                        == region_len(j) by {
                        assert(old(self).region(j) is Some);
                    }
                }
                true
            },
            // Corners
            0 | 2 | 6 | 8 => {
                // Offset position
                if idx.1 == 0 || idx.1 == 6 {
                    pos.x -= HALF_CHUNK_LENGHT as i32;
                }
                if idx.1 == 0 || idx.1 == 2 {
                    pos.y -= HALF_CHUNK_LENGHT as i32;
                }

                let index = pos.y * HALF_CHUNK_LENGHT as i32 + pos.x;
                let corner_index = ChunkGroup::surrounding_idx(idx.1) as usize;

                if self.corners[corner_index].is_none() {
                    return false;
                }
                if let Some(corners) = &mut self.corners[corner_index] {
                    proof {
                        assert(old(self).region(idx.1 as int) is Some);
                    }
                    corners.set(index as usize, atom);
                    proof {
                        assert(self.regions() =~= old(self).with_atom(idx, atom));
                        assert forall|j: int| 0 <= j < 9 && #[trigger] self.region(j) is Some implies self.region(j).unwrap().len()
                            == region_len(j) by {
                            assert(old(self).region(j) is Some);
                        }
                    }
                    true
                } else {
                    false
                }
            },
            // Sides
            1 | 3 | 5 | 7 => {
                // Offset position
                if idx.1 == 1 {
                    pos.y -= HALF_CHUNK_LENGHT as i32
                } else if idx.1 == 3 {
                    pos.x -= HALF_CHUNK_LENGHT as i32
                }

                // Gets width accordingly if side is a top/down or left/right
                let width = if idx.1 == 3 || idx.1 == 5 {
                    HALF_CHUNK_LENGHT
                } else {
                    CHUNK_LENGHT
                } as i32;

                proof {
                    assert(-1000032 <= pos.y <= 1000032);
                    assert(-65000000 <= pos.y * width <= 65000000) by (nonlinear_arith)
                        requires
                            -1000032 <= pos.y <= 1000032,
                            width == 32 || width == 64,
                    ;
                }
                let index = pos.y * width + pos.x;
                let side_index = ChunkGroup::surrounding_idx(idx.1) as usize;

                if self.sides[side_index].is_none() {
                    return false;
                }
                if let Some(sides) = &mut self.sides[side_index] {
                    proof {
                        assert(old(self).region(idx.1 as int) is Some);
                        assert(0 <= pos.x < width);
                        assert(0 <= index < 2048) by (nonlinear_arith)
                            requires
                                index == pos.y * width + pos.x,
                                0 <= pos.x < width,
                                0 <= pos.y,
                                (width == 32 && pos.y < 64) || (width == 64 && pos.y < 32),
                        ;
                    }
                    sides.set(index as usize, atom);
                    proof {
                        assert(self.regions() =~= old(self).with_atom(idx, atom));
                        assert forall|j: int| 0 <= j < 9 && #[trigger] self.region(j) is Some implies self.region(j).unwrap().len()
                            == region_len(j) by {
                            assert(old(self).region(j) is Some);
                        }
                    }
                    true
                } else {
                    false
                }
            },
            _ => false,
        }
    }
}

} // verus!

verus! {

/// Transforms global 3x3 chunk position to local 3x3 chunks position
/// Used for chunk multithreaded updates
pub fn global_to_local(pos: IVec2) -> (r: (IVec2, i32))
    requires
        0 <= pos.x < 192,
        0 <= pos.y < 192,
    ensures
        r == local_of(pos),
{
    let chunk_lenght = CHUNK_LENGHT as i32;

    let chunk_x = pos.x % (chunk_lenght * 3) / chunk_lenght;
    let chunk_y = pos.y / chunk_lenght;

    let local_x = pos.x - chunk_x * chunk_lenght;
    let local_y = pos.y - chunk_y * chunk_lenght;

    let chunk_index = chunk_y * 3 + chunk_x;

    (IVec2::new(local_x, local_y), chunk_index)
}

/// Transforms local 3x3 chunk position to global 3x3 chunks position
/// Used for chunk multithreaded updates
pub fn local_to_global(pos: (IVec2, i32)) -> (r: IVec2)
    requires
        0 <= pos.0.x < 64,
        0 <= pos.0.y < 64,
        0 <= pos.1 < 9,
    ensures
        r == global_of(pos.0, pos.1 as int),
{
    let chunk_size = CHUNK_LENGHT as i32;

    let chunk_index = pos.1;

    let chunk_x = chunk_index % 3;
    let chunk_y = chunk_index / 3;

    let global_x = pos.0.x + chunk_size * chunk_x;
    let global_y = pos.0.y + chunk_size * chunk_y;

    IVec2::new(global_x, global_y)
}

/// Law: `local_to_global` undoes `global_to_local` on the 3x3 chunks.
pub proof fn law_local_global_roundtrip(p: IVec2)
    requires
        0 <= p.x < 192,
        0 <= p.y < 192,
    ensures
        0 <= local_of(p).0.x < 64,
        0 <= local_of(p).0.y < 64,
        0 <= local_of(p).1 < 9,
        global_of(local_of(p).0, local_of(p).1 as int) == p,
{
}

/// Law: `global_to_local` undoes `local_to_global`.
pub proof fn law_global_local_roundtrip(p: IVec2, i: int)
    requires
        0 <= p.x < 64,
        0 <= p.y < 64,
        0 <= i < 9,
    ensures
        0 <= global_of(p, i).x < 192,
        0 <= global_of(p, i).y < 192,
        local_of(global_of(p, i)) == (p, i as i32),
{
}

/// Law: every position within 32 atoms of the centre chunk lies in the part
/// of its chunk that a group holds.
pub proof fn law_near_center_accessible(p: IVec2)
    requires
        near_center(p),
    ensures
        accessible(local_of(p).0, local_of(p).1 as int),
{
}

impl ChunkGroup {
    pub fn get_global(&self, idx: IVec2) -> (r: Option<&Atom>)
        requires
            self.wf(),
            0 <= idx.x < 192,
            0 <= idx.y < 192,
            local_ok(*self, local_of(idx)),
        ensures
            match r {
                Some(a) => self.atom_at(local_of(idx)) == Some(*a),
                None => self.atom_at(local_of(idx)) is None,
            },
    {
        let local_idx = global_to_local(idx);
        self.get_local(local_idx)
    }

    /// Replaces the atom at global position `idx` (see `set_local`).
    pub fn set_global(&mut self, idx: IVec2, atom: Atom) -> (b: bool)
        requires
            old(self).wf(),
            0 <= idx.x < 192,
            0 <= idx.y < 192,
            local_ok(*old(self), local_of(idx)),
        ensures
            b == (old(self).atom_at(local_of(idx)) is Some),
            b ==> final(self).regions() == old(self).with_atom(local_of(idx), atom),
            !b ==> *final(self) == *old(self),
            final(self).center_pos == old(self).center_pos,
            final(self).wf(),
    {
        let local_idx = global_to_local(idx);
        self.set_local(local_idx, atom)
    }
}

} // verus!

verus! {

/// Index in the 3x3 of the chunk at offset `(x_off, y_off)` from the centre.
pub open spec fn offset_index(x_off: int, y_off: int) -> int {
    (y_off + 1) * 3 + (x_off + 1)
}

/// Index, in the atoms of chunk `i` of the 3x3, of the `k`-th atom of the part
/// of that chunk that a group holds.
pub open spec fn chunk_index_of(i: int, k: int) -> int {
    (region_y0(i) + k / region_width(i)) * 64 + region_x0(i) + k % region_width(i)
}

/// The atom at index `j` of chunk `i` lies in the part that a group holds.
pub open spec fn in_region(i: int, j: int) -> bool {
    &&& 0 <= j < 4096
    &&& region_x0(i) <= j % 64 < region_x0(i) + region_width(i)
    &&& region_y0(i) <= j / 64 < region_y0(i) + region_height(i)
}

/// Where, in the part of chunk `i` that a group holds, the atom at index `j`
/// of the chunk is kept.
pub open spec fn region_pos(i: int, j: int) -> int {
    (j / 64 - region_y0(i)) * region_width(i) + (j % 64 - region_x0(i))
}

/// `q * w + r` divided by `w` gives `q`, remainder `r`.
proof fn lemma_split_w(q: int, r: int, w: int)
    requires
        0 < w,
        0 <= r < w,
    ensures
        (q * w + r) / w == q,
        (q * w + r) % w == r,
{
    vstd::arithmetic::div_mod::lemma_fundamental_div_mod_converse(q * w + r, w, q, r);
}

/// Every integer is a quotient times `w` plus a remainder below `w`.
proof fn lemma_div_mod_w(j: int, w: int)
    requires
        0 < w,
    ensures
        0 <= j % w < w,
        j == (j / w) * w + j % w,
{
    vstd::arithmetic::div_mod::lemma_fundamental_div_mod(j, w);
    vstd::arithmetic::div_mod::lemma_mod_bound(j, w);
    vstd::arithmetic::mul::lemma_mul_is_commutative(w, j / w);
}

/// `chunk_index_of` and `region_pos` are inverse of each other.
pub proof fn lemma_region_bijection(i: int)
    requires
        0 <= i < 9,
    ensures
        forall|k: int|
            0 <= k < region_len(i) ==> in_region(i, #[trigger] chunk_index_of(i, k)) && region_pos(
                i,
                chunk_index_of(i, k),
            ) == k,
        forall|j: int|
            in_region(i, j) ==> 0 <= #[trigger] region_pos(i, j) < region_len(i) && chunk_index_of(
                i,
                region_pos(i, j),
            ) == j,
{
    let w = region_width(i);
    let h = region_height(i);
    assert forall|k: int| 0 <= k < region_len(i) implies in_region(i, #[trigger] chunk_index_of(i, k))
        && region_pos(i, chunk_index_of(i, k)) == k by {
        lemma_div_mod_w(k, w);
        let q = k / w;
        let r = k % w;
        assert(0 <= q < h) by {
            vstd::arithmetic::div_mod::lemma_div_is_ordered_by_denominator(k, w, w);
            vstd::arithmetic::div_mod::lemma_div_by_multiple_is_strongly_ordered(k, w * h, h, w);
        }
        lemma_split_w(region_y0(i) + q, region_x0(i) + r, 64);
    }
    assert forall|j: int| in_region(i, j) implies 0 <= #[trigger] region_pos(i, j) < region_len(i)
        && chunk_index_of(i, region_pos(i, j)) == j by {
        lemma_div_mod_w(j, 64);
        let q = j / 64 - region_y0(i);
        let r = j % 64 - region_x0(i);
        lemma_split_w(q, r, w);
        assert(q * w + r < h * w) by (nonlinear_arith)
            requires
                0 <= q < h,
                0 <= r < w,
        ;
        assert(0 <= q * w) by (nonlinear_arith)
            requires
                0 <= q,
                0 < w,
        ;
    }
}

} // verus!

verus! {

/// Column offset at which the part of chunk `i` that a group holds begins
/// in the chunk's atoms, for the parts narrower than the chunk.
pub open spec fn region_base(i: int) -> int {
    region_y0(i) * 64 + region_x0(i)
}

/// The part of a neighbouring chunk, at offset `(x_off, y_off)` from the
/// centre, that a group holds: the half or the quarter that faces the centre.
pub fn chunk_region(atoms: &Vec<Atom>, x_off: i32, y_off: i32) -> (region: Vec<Atom>)
    requires
        atoms.len() == 4096,
        -1 <= x_off <= 1,
        -1 <= y_off <= 1,
        x_off != 0 || y_off != 0,
    ensures
        region@.len() == region_len(offset_index(x_off as int, y_off as int)),
        forall|k: int|
            0 <= k < region@.len() ==> region@[k] == atoms@[#[trigger] chunk_index_of(
                offset_index(x_off as int, y_off as int),
                k,
            )],
{
    let ghost i = offset_index(x_off as int, y_off as int);
    let mut region: Vec<Atom> = Vec::new();
    if x_off == 0 {
        // UP and DOWN
        let start = if y_off == -1 { HALF_CHUNK_LEN } else { 0 };
        let mut k: usize = 0;
        while k < HALF_CHUNK_LEN
            invariant
                atoms.len() == 4096,
                i == offset_index(x_off as int, y_off as int),
                x_off == 0,
                y_off == -1 || y_off == 1,
                start == region_y0(i) * 64,
                k <= HALF_CHUNK_LEN,
                region@.len() == k,
                forall|k2: int| 0 <= k2 < k ==> region@[k2] == atoms@[#[trigger] chunk_index_of(i, k2)],
            decreases HALF_CHUNK_LEN - k,
        {
            proof {
                lemma_div_mod_w(k as int, 64);
            }
            region.push(atoms[start + k]);
            k += 1;
        }
    } else {
        // LEFT and RIGHT, and CORNERS
        let n = if y_off == 0 { HALF_CHUNK_LEN } else { QUARTER_CHUNK_LEN };
        let mut add_off: usize = if y_off == 0 {
            if x_off == -1 { HALF_CHUNK_LENGHT } else { 0 }
        } else if x_off == 1 && y_off == 1 {
            0
        } else if x_off == -1 && y_off == 1 {
            HALF_CHUNK_LENGHT
        } else if x_off == 1 && y_off == -1 {
            HALF_CHUNK_LEN
        } else {
            HALF_CHUNK_LEN + HALF_CHUNK_LENGHT
        };
        let mut k: usize = 0;
        while k < n
            invariant
                atoms.len() == 4096,
                i == offset_index(x_off as int, y_off as int),
                x_off != 0,
                n == region_len(i),
                region_width(i) == 32,
                k <= n,
                k == 0 ==> add_off == region_base(i),
                k > 0 ==> add_off == region_base(i) + 32 * ((k - 1) / 32),
                region@.len() == k,
                forall|k2: int| 0 <= k2 < k ==> region@[k2] == atoms@[#[trigger] chunk_index_of(i, k2)],
            decreases n - k,
        {
            if k % HALF_CHUNK_LENGHT == 0 && k != 0 {
                add_off += HALF_CHUNK_LENGHT;
            }
            proof {
                lemma_div_mod_w(k as int, 32);
                if k > 0 {
                    lemma_div_mod_w((k - 1) as int, 32);
                }
            }
            region.push(atoms[k + add_off]);
            k += 1;
        }
    }
    region
}

} // verus!

verus! {

/// Writes back into a neighbouring chunk, at offset `(x_off, y_off)` from the
/// centre, the part of it that a group held.
pub fn store_region(atoms: &mut Vec<Atom>, region: &Vec<Atom>, x_off: i32, y_off: i32)
    requires
        old(atoms).len() == 4096,
        -1 <= x_off <= 1,
        -1 <= y_off <= 1,
        x_off != 0 || y_off != 0,
        region@.len() == region_len(offset_index(x_off as int, y_off as int)),
    ensures
        final(atoms)@.len() == 4096,
        forall|j: int|
            0 <= j < 4096 ==> #[trigger] final(atoms)@[j] == if in_region(
                offset_index(x_off as int, y_off as int),
                j,
            ) {
                region@[region_pos(offset_index(x_off as int, y_off as int), j)]
            } else {
                old(atoms)@[j]
            },
{
    let ghost i = offset_index(x_off as int, y_off as int);
    proof {
        lemma_region_bijection(i);
    }
    let n = region.len();
    let mut k: usize = 0;
    while k < n
        invariant
            atoms.len() == 4096,
            0 <= i < 9,
            i != 4,
            i == offset_index(x_off as int, y_off as int),
            -1 <= x_off <= 1,
            -1 <= y_off <= 1,
            x_off != 0 || y_off != 0,
            n == region@.len(),
            n == region_len(i),
            k <= n,
            forall|k2: int|
                0 <= k2 < region_len(i) ==> in_region(i, #[trigger] chunk_index_of(i, k2)) && region_pos(
                    i,
                    chunk_index_of(i, k2),
                ) == k2,
            forall|j: int|
                in_region(i, j) ==> 0 <= #[trigger] region_pos(i, j) < region_len(i) && chunk_index_of(
                    i,
                    region_pos(i, j),
                ) == j,
            forall|j: int|
                0 <= j < 4096 ==> #[trigger] atoms@[j] == if in_region(i, j) && region_pos(i, j) < k {
                    region@[region_pos(i, j)]
                } else {
                    old(atoms)@[j]
                },
        decreases n - k,
    {
        let w: usize = if x_off == 0 { 64 } else { 32 };
        let x0: usize = if x_off == -1 { 32 } else { 0 };
        let y0: usize = if y_off == -1 { 32 } else { 0 };
        proof {
            assert(w == region_width(i));
            assert(x0 == region_x0(i));
            assert(y0 == region_y0(i));
            lemma_div_mod_w(k as int, w as int);
            assert(k / w < 64);
        }
        let j = (y0 + k / w) * 64 + x0 + k % w;
        proof {
            assert(j == chunk_index_of(i, k as int));
        }
        atoms.set(j, region[k]);
        k += 1;
    }
}

/// Law: writing back the part of a chunk that a group took leaves the chunk
/// as it was.
pub proof fn law_store_extracted(atoms: Seq<Atom>, region: Seq<Atom>, i: int)
    requires
        atoms.len() == 4096,
        0 <= i < 9,
        region.len() == region_len(i),
        forall|k: int| 0 <= k < region.len() ==> region[k] == atoms[#[trigger] chunk_index_of(i, k)],
    ensures
        forall|j: int|
            0 <= j < 4096 ==> #[trigger] atoms[j] == if in_region(i, j) {
                region[region_pos(i, j)]
            } else {
                atoms[j]
            },
{
    lemma_region_bijection(i);
}

/// Law: the atom a group gives at an accessible local position of a
/// neighbouring chunk is the atom of that chunk at that position, when the
/// group holds the part of the chunk that `chunk_region` takes.
pub proof fn law_group_reads_chunk(region: Seq<Atom>, atoms: Seq<Atom>, p: IVec2, i: int)
    requires
        atoms.len() == 4096,
        accessible(p, i),
        region.len() == region_len(i),
        forall|k: int| 0 <= k < region.len() ==> region[k] == atoms[#[trigger] chunk_index_of(i, k)],
    ensures
        0 <= slot(p, i) < region.len(),
        region[slot(p, i)] == atoms[p.y * 64 + p.x],
{
    lemma_region_bijection(i);
    let j = p.y * 64 + p.x;
    lemma_split_w(p.y as int, p.x as int, 64);
    assert(in_region(i, j));
    assert(region_pos(i, j) == slot(p, i));
}

} // verus!
