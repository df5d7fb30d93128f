use vstd::prelude::*;
use crate::atom::Atom;
use crate::consts::{CHUNK_LEN, CHUNK_LENGHT};
use crate::math::{IVec2, URect};
use crate::materials::Materials;

verus! {

/// The atoms of a chunk, row by row.
pub struct Chunk {
    pub atoms: Vec<Atom>,
}

impl Chunk {
    pub open spec fn wf(&self) -> bool {
        self.atoms.len() == 4096
    }

    /// A chunk of empty atoms.
    pub fn new_empty() -> (c: Chunk)
        ensures
            c.wf(),
            forall|i: int| 0 <= i < 4096 ==> c.atoms@[i] == crate::atom::default_atom(),
    {
        let mut atoms: Vec<Atom> = Vec::new();
        let mut i: usize = 0;
        while i < CHUNK_LEN
            invariant
                i <= CHUNK_LEN,
                atoms@.len() == i,
                forall|k: int| 0 <= k < i ==> atoms@[k] == crate::atom::default_atom(),
            decreases CHUNK_LEN - i,
        {
            atoms.push(Atom::default());
            i += 1;
        }
        Chunk { atoms }
    }

    /// A chunk with the same atoms.
    pub fn copied(&self) -> (c: Chunk)
        ensures
            c.atoms@ == self.atoms@,
    {
        let mut atoms: Vec<Atom> = Vec::new();
        let mut i: usize = 0;
        while i < self.atoms.len()
            invariant
                i <= self.atoms@.len(),
                atoms@ == self.atoms@.subrange(0, i as int),
            decreases self.atoms@.len() - i,
        {
            atoms.push(self.atoms[i]);
            i += 1;
        }
        proof {
            assert(atoms@ =~= self.atoms@);
        }
        Chunk { atoms }
    }

    /// Which atoms are solid, row by row (what the collider is traced from).
    pub fn get_values(&self, materials: &Materials) -> (values: Vec<bool>)
        requires
            forall|i: int| 0 <= i < self.atoms.len() ==> ((#[trigger] self.atoms@[i]).id as int) < materials.0.len(),
        ensures
            values@.len() == self.atoms@.len(),
            forall|i: int| 0 <= i < values@.len() ==> values@[i] == materials.of((#[trigger] self.atoms@[i]).id).is_solid_spec(),
    {
        let mut values: Vec<bool> = Vec::new();
        let mut i: usize = 0;
        while i < self.atoms.len()
            invariant
                i <= self.atoms@.len(),
                values@.len() == i,
                forall|k: int| 0 <= k < self.atoms.len() ==> ((#[trigger] self.atoms@[k]).id as int) < materials.0.len(),
                forall|k: int| 0 <= k < i ==> values@[k] == materials.of((#[trigger] self.atoms@[k]).id).is_solid_spec(),
            decreases self.atoms@.len() - i,
        {
            let atom = &self.atoms[i];
            if materials.get_from_atom(atom).is_solid() {
                values.push(true)
            } else {
                values.push(false)
            }
            i += 1;
        }
        values
    }
}

/// The RGBA bytes of the image of a chunk, row by row, once the pixels of
/// `positions` show the colours of their atoms.
pub open spec fn painted_pixels(data: Seq<u8>, atoms: Seq<Atom>, positions: Seq<IVec2>) -> Seq<u8> {
    Seq::new(
        data.len(),
        |b: int|
            if exists|i: int|
                0 <= i < positions.len() && (#[trigger] positions[i]).y * 64 + positions[i].x == b / 4 {
                atoms[b / 4].color[b % 4]
            } else {
                data[b]
            },
    )
}

/// The colours of the atoms of `rect`, row by row, as RGBA bytes.
pub open spec fn rect_pixels(atoms: Seq<Atom>, rect: URect) -> Seq<u8> {
    let w = rect.max.x - rect.min.x + 1;
    let h = rect.max.y - rect.min.y + 1;
    Seq::new(
        (w * h * 4) as nat,
        |b: int|
            {
                let p = b / 4;
                atoms[(rect.min.y + p / w) * 64 + rect.min.x + p % w].color[b % 4]
            },
    )
}

impl Chunk {
    /// Writes into the RGBA bytes of the chunk's image the colours of the
    /// atoms at `positions`.
    pub fn update_image_positions(&self, data: &mut Vec<u8>, positions: &Vec<IVec2>)
        requires
            self.wf(),
            old(data)@.len() == 4 * 4096,
            forall|i: int|
                0 <= i < positions@.len() ==> 0 <= (#[trigger] positions@[i]).x < 64 && 0 <= positions@[i].y < 64,
        ensures
            final(data)@ == painted_pixels(old(data)@, self.atoms@, positions@),
    {
        let ghost d0 = data@;
        proof {
            assert(painted_pixels(d0, self.atoms@, positions@.subrange(0, 0)) =~= d0);
        }
        let mut i: usize = 0;
        while i < positions.len()
            invariant
                i <= positions@.len(),
                self.wf(),
                d0 == old(data)@,
                d0.len() == 4 * 4096,
                forall|k: int|
                    0 <= k < positions@.len() ==> 0 <= (#[trigger] positions@[k]).x < 64 && 0 <= positions@[k].y < 64,
                data@ == painted_pixels(d0, self.atoms@, positions@.subrange(0, i as int)),
            decreases positions@.len() - i,
        {
            let pos = positions[i];
            let cell = pos.y as usize * CHUNK_LENGHT + pos.x as usize;
            let pixel_index = cell * 4;
            let color = self.atoms[cell].color;
            let ghost before = data@;
            data.set(pixel_index, color[0]);
            data.set(pixel_index + 1, color[1]);
            data.set(pixel_index + 2, color[2]);
            data.set(pixel_index + 3, color[3]);
            proof {
                let s_old = positions@.subrange(0, i as int);
                let s_new = positions@.subrange(0, i + 1);
                assert forall|b: int| 0 <= b < d0.len() implies data@[b] == painted_pixels(d0, self.atoms@, s_new)[b] by {
                    let hit_old = exists|j: int| 0 <= j < s_old.len() && (#[trigger] s_old[j]).y * 64 + s_old[j].x == b / 4;
                    let hit_new = exists|j: int| 0 <= j < s_new.len() && (#[trigger] s_new[j]).y * 64 + s_new[j].x == b / 4;
                    assert(hit_new == (hit_old || b / 4 == cell)) by {
                        if hit_old {
                            let j = choose|j: int| 0 <= j < s_old.len() && (#[trigger] s_old[j]).y * 64 + s_old[j].x == b / 4;
                            assert(s_new[j] == s_old[j]);
                        }
                        if hit_new {
                            let j = choose|j: int| 0 <= j < s_new.len() && (#[trigger] s_new[j]).y * 64 + s_new[j].x == b / 4;
                            if j < i {
                                assert(s_old[j] == s_new[j]);
                            }
                        }
                        if b / 4 == cell {
                            assert(s_new[i as int] == pos);
                        }
                    }
                }
                assert(data@ =~= painted_pixels(d0, self.atoms@, s_new));
            }
            i += 1;
        }
        proof {
            assert(positions@.subrange(0, positions@.len() as int) =~= positions@);
        }
    }

    /// Writes the colours of all the atoms into the RGBA bytes of the chunk's
    /// image.
    pub fn update_all(&self, data: &mut Vec<u8>)
        requires
            self.wf(),
            old(data)@.len() == 4 * 4096,
        ensures
            final(data)@.len() == 4 * 4096,
            forall|b: int| 0 <= b < 4 * 4096 ==> #[trigger] final(data)@[b] == self.atoms@[b / 4].color[b % 4],
    {
        let mut positions: Vec<IVec2> = Vec::new();
        let mut y: i32 = 0;
        while y < 64
            invariant
                0 <= y <= 64,
                positions@.len() == y * 64,
                forall|k: int| 0 <= k < positions@.len() ==> #[trigger] positions@[k] == (IVec2 { x: (k % 64) as i32, y: (k / 64) as i32 }),
            decreases 64 - y,
        {
            let mut x: i32 = 0;
            while x < 64
                invariant
                    0 <= y < 64,
                    0 <= x <= 64,
                    positions@.len() == y * 64 + x,
                    forall|k: int| 0 <= k < positions@.len() ==> #[trigger] positions@[k] == (IVec2 { x: (k % 64) as i32, y: (k / 64) as i32 }),
                decreases 64 - x,
            {
                positions.push(IVec2::new(x, y));
                proof {
                    let k = positions@.len() - 1;
                    assert(k == y * 64 + x);
                    assert(k % 64 == x && k / 64 == y) by (nonlinear_arith)
                        requires
                            k == y * 64 + x,
                            0 <= x < 64,
                            0 <= y,
                    ;
                }
                x += 1;
            }
            y += 1;
        }
        assert forall|k: int| 0 <= k < positions@.len() implies 0 <= (#[trigger] positions@[k]).x < 64 && 0 <= positions@[k].y < 64 by {
            assert(positions@[k] == (IVec2 { x: (k % 64) as i32, y: (k / 64) as i32 }));
        }
        let ghost d0 = data@;
        self.update_image_positions(data, &positions);
        proof {
            assert forall|b: int| 0 <= b < 4 * 4096 implies #[trigger] data@[b] == self.atoms@[b / 4].color[b % 4] by {
                let k = b / 4;
                assert(positions@[k] == (IVec2 { x: (k % 64) as i32, y: (k / 64) as i32 }));
                assert((k / 64) * 64 + k % 64 == k) by (nonlinear_arith)
                    requires
                        0 <= k,
                ;
                assert(positions@[k].y * 64 + positions@[k].x == b / 4);
            }
        }
    }

    /// The colours of the atoms of a dirty render rectangle, row by row, as
    /// the RGBA bytes that update the chunk's texture there.
    pub fn rect_data(&self, rect: &URect) -> (data: Vec<u8>)
        requires
            self.wf(),
            crate::manager_api::rect_wf(*rect),
        ensures
            data@ == rect_pixels(self.atoms@, *rect),
    {
        let w = rect.max.x - rect.min.x + 1;
        let mut data: Vec<u8> = Vec::new();
        let mut y: u32 = rect.min.y;
        while y <= rect.max.y
            invariant
                crate::manager_api::rect_wf(*rect),
                self.wf(),
                w == rect.max.x - rect.min.x + 1,
                rect.min.y <= y <= rect.max.y + 1,
                data@.len() == (y - rect.min.y) * w * 4,
                forall|b: int| 0 <= b < data@.len() ==> #[trigger] data@[b] == rect_pixels(self.atoms@, *rect)[b],
            decreases rect.max.y + 1 - y,
        {
            let mut x: u32 = rect.min.x;
            while x <= rect.max.x
                invariant
                    crate::manager_api::rect_wf(*rect),
                    self.wf(),
                    w == rect.max.x - rect.min.x + 1,
                    rect.min.y <= y <= rect.max.y,
                    rect.min.x <= x <= rect.max.x + 1,
                    data@.len() == ((y - rect.min.y) * w + (x - rect.min.x)) * 4,
                    forall|b: int| 0 <= b < data@.len() ==> #[trigger] data@[b] == rect_pixels(self.atoms@, *rect)[b],
                decreases rect.max.x + 1 - x,
            {
                let color = self.atoms[(y * 64 + x) as usize].color;
                let ghost n = data@.len();
                data.push(color[0]);
                data.push(color[1]);
                data.push(color[2]);
                data.push(color[3]);
                proof {
                    let p = (y - rect.min.y) * w + (x - rect.min.x);
                    assert(n == p * 4);
                    assert(p < w * (rect.max.y - rect.min.y + 1)) by (nonlinear_arith)
                        requires
                            p == (y - rect.min.y) * w + (x - rect.min.x),
                            x - rect.min.x < w,
                            y - rect.min.y < rect.max.y - rect.min.y + 1,
                            0 <= y - rect.min.y,
                            0 <= x - rect.min.x,
                    ;
                    let wi = w as int;
                    assert(p / wi == y - rect.min.y && p % wi == x - rect.min.x) by (nonlinear_arith)
                        requires
                            p == (y - rect.min.y) * wi + (x - rect.min.x),
                            0 <= x - rect.min.x < wi,
                            0 <= y - rect.min.y,
                    ;
                    assert forall|b: int| 0 <= b < data@.len() implies #[trigger] data@[b] == rect_pixels(self.atoms@, *rect)[b] by {
                        if b >= n {
                            assert(b / 4 == p);
                            assert((p * 4 + 3) < (w * (rect.max.y - rect.min.y + 1) * 4)) by (nonlinear_arith)
                                requires
                                    p < w * (rect.max.y - rect.min.y + 1),
                            ;
                        }
                    }
                }
                x += 1;
            }
            assert(data@.len() == ((y + 1 - rect.min.y) * w) * 4) by (nonlinear_arith)
                requires
                    data@.len() == ((y - rect.min.y) * w + (rect.max.x + 1 - rect.min.x)) * 4,
                    w == rect.max.x - rect.min.x + 1,
            ;
            y += 1;
        }
        proof {
            assert(data@.len() == rect_pixels(self.atoms@, *rect).len()) by (nonlinear_arith)
                requires
                    data@.len() == (rect.max.y + 1 - rect.min.y) * w * 4,
                    rect_pixels(self.atoms@, *rect).len() == w * (rect.max.y - rect.min.y + 1) * 4,
            ;
            assert(data@ =~= rect_pixels(self.atoms@, *rect));
        }
        data
    }
}

} // verus!
