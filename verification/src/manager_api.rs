use vstd::prelude::*;
use std::collections::BTreeMap;
use crate::consts::CHUNK_LENGHT;
use crate::math::{IVec2, UVec2, URect, ivec2, uvec2, key};

verus! {

broadcast use vstd::laws_cmp::group_laws_cmp, vstd::std_specs::btree::group_btree_axioms;

/// The dirty rectangles of the chunks, keyed by chunk position.
pub type RectMap = BTreeMap<(i32, i32), URect>;

/// Position of an atom given as the chunk that holds it and its place in that chunk.
#[derive(Clone, Copy, Debug, PartialEq, Eq, Structural, Hash)]
pub struct ChunkPos {
    pub atom: UVec2,
    pub chunk: IVec2,
}

/// Bound on chunk coordinates under which global coordinates, and their
/// neighbours, fit in an `i32`.
pub open spec fn chunk_coord_ok(c: int) -> bool {
    -33554430 <= c <= 33554430
}

/// Bound on global coordinates that `global_to_chunk` accepts.
pub open spec fn global_coord_ok(g: int) -> bool {
    i32::MIN + 64 <= g <= i32::MAX
}

impl ChunkPos {
    /// The atom lies inside its chunk.
    pub open spec fn wf(self) -> bool {
        self.atom.x < 64 && self.atom.y < 64
    }

    /// The chunk is far enough from the edge of the `i32` range.
    pub open spec fn in_range(self) -> bool {
        chunk_coord_ok(self.chunk.x as int) && chunk_coord_ok(self.chunk.y as int)
    }

    /// Global x coordinate, as an integer.
    pub open spec fn gx(self) -> int {
        self.chunk.x * 64 + self.atom.x
    }

    /// Global y coordinate, as an integer.
    pub open spec fn gy(self) -> int {
        self.chunk.y * 64 + self.atom.y
    }

    pub fn new(atom: UVec2, chunk: IVec2) -> (r: Self)
        ensures
            r.atom == atom,
            r.chunk == chunk,
    {
        Self { atom, chunk }
    }

    /// Global position of the atom.
    pub fn to_global(self) -> (r: IVec2)
        requires
            self.atom.x <= i32::MAX,
            self.atom.y <= i32::MAX,
            i32::MIN <= self.chunk.x * 64 <= i32::MAX,
            i32::MIN <= self.chunk.y * 64 <= i32::MAX,
            i32::MIN <= self.gx() <= i32::MAX,
            i32::MIN <= self.gy() <= i32::MAX,
        ensures
            r.x == self.gx(),
            r.y == self.gy(),
    {
        let mut atom = IVec2 { x: self.atom.x as i32, y: self.atom.y as i32 };
        atom.x += self.chunk.x * CHUNK_LENGHT as i32;
        atom.y += self.chunk.y * CHUNK_LENGHT as i32;
        atom
    }
}

/// The chunk position of the global position `(gx, gy)`: chunks are
/// `CHUNK_LENGHT` wide, and negative coordinates round towards minus infinity.
pub open spec fn chunk_pos_at(gx: int, gy: int) -> ChunkPos {
    ChunkPos {
        atom: UVec2 { x: (gx % 64) as u32, y: (gy % 64) as u32 },
        chunk: IVec2 { x: (gx / 64) as i32, y: (gy / 64) as i32 },
    }
}

/// Splitting `c * 64 + a` into chunk and atom gives back `c` and `a`.
pub proof fn lemma_split(c: int, a: int)
    requires
        0 <= a < 64,
    ensures
        (c * 64 + a) / 64 == c,
        (c * 64 + a) % 64 == a,
{
    vstd::arithmetic::div_mod::lemma_fundamental_div_mod_converse(c * 64 + a, 64, c, a);
}

/// Every integer is a chunk times 64 plus an atom below 64.
pub proof fn lemma_div_mod_64(g: int)
    ensures
        0 <= g % 64 < 64,
        g == (g / 64) * 64 + g % 64,
{
    vstd::arithmetic::div_mod::lemma_fundamental_div_mod(g, 64);
    vstd::arithmetic::div_mod::lemma_mod_bound(g, 64);
    vstd::arithmetic::mul::lemma_mul_is_commutative(64, g / 64);
}

/// The truncating quotient of `a` by a positive `b`.
pub open spec fn tdiv(a: int, b: int) -> int {
    if a >= 0 { a / b } else { -((-a) / b) }
}

/// The remainder that goes with `tdiv`.
pub open spec fn tmod(a: int, b: int) -> int {
    a - b * tdiv(a, b)
}

/// How `global_to_chunk` handles a negative coordinate `p`: it shifts it by a
/// chunk, divides with truncation, and corrects the result.
proof fn lemma_negative_axis(p: int)
    requires
        p < 0,
    ensures
        ({
            let q = p - 64;
            let off = (tmod(q, 64) + 64) % 64;
            &&& tdiv(q, 64) + (if off == 0 { 1int } else { 0int }) == p / 64
            &&& off == p % 64
            &&& 0 <= off < 64
            &&& -64 < tmod(q, 64) <= 0
        }),
{
    let e = p / 64;
    let m = p % 64;
    lemma_div_mod_64(p);
    let q = p - 64;
    assert(e < 0);
    if m == 0 {
        assert(-q == (1 - e) * 64 + 0);
        lemma_split(1 - e, 0);
        assert(tdiv(q, 64) == e - 1);
        assert(tmod(q, 64) == 0);
        lemma_split(1, 0);
    } else {
        assert(-q == (-e) * 64 + (64 - m));
        lemma_split(-e, 64 - m);
        assert(tdiv(q, 64) == e);
        assert(tmod(q, 64) == m - 64);
        lemma_split(0, m);
    }
}

/// Transforms a global manager position to a chunk position.
/// If you are getting this from a transform, make sure to flip the y value.
pub fn global_to_chunk(pos: IVec2) -> (r: ChunkPos)
    requires
        global_coord_ok(pos.x as int),
        global_coord_ok(pos.y as int),
    ensures
        r == chunk_pos_at(pos.x as int, pos.y as int),
        r.wf(),
{
    let mut pos = pos;
    // This makes sure we don't have double 0 chunks.
    if pos.x < 0 {
        pos.x -= CHUNK_LENGHT as i32;
    }
    if pos.y < 0 {
        pos.y -= CHUNK_LENGHT as i32;
    }

    let (mut chunk_x, mut chunk_y) = (pos.x / CHUNK_LENGHT as i32, pos.y / CHUNK_LENGHT as i32);

    //Hacky stuff for neg coords, but it works
    let (x_off, y_off) = (
        (pos.x % CHUNK_LENGHT as i32 + CHUNK_LENGHT as i32) % CHUNK_LENGHT as i32,
        (pos.y % CHUNK_LENGHT as i32 + CHUNK_LENGHT as i32) % CHUNK_LENGHT as i32,
    );

    if pos.x < 0 && x_off == 0 {
        chunk_x += 1
    }
    if pos.y < 0 && y_off == 0 {
        chunk_y += 1
    }

    let (x, y) = (
        if pos.x >= 0 {
            pos.x as u32 % CHUNK_LENGHT as u32
        } else {
            x_off as u32
        },
        if pos.y >= 0 {
            pos.y as u32 % CHUNK_LENGHT as u32
        } else {
            y_off as u32
        },
    );
    proof {
        if pos.x < 0 {
            lemma_negative_axis(pos.x + 64);
        } else {
            lemma_div_mod_64(pos.x as int);
        }
        if pos.y < 0 {
            lemma_negative_axis(pos.y + 64);
        } else {
            lemma_div_mod_64(pos.y as int);
        }
    }
    ChunkPos::new(uvec2(x, y), ivec2(chunk_x, chunk_y))
}

} // verus!

verus! {

/// `v` clamped to the last atom index of a chunk.
pub open spec fn clamp_63(v: u32) -> u32 {
    if v > 63 { 63 } else { v }
}

/// What `extend_rect_if_needed` makes of `r` for the point `p`.
pub open spec fn extended(r: URect, p: UVec2) -> URect {
    URect {
        min: UVec2 {
            x: if p.x < r.min.x { clamp_63(p.x) } else { r.min.x },
            y: if p.y < r.min.y { clamp_63(p.y) } else { r.min.y },
        },
        max: UVec2 {
            x: if p.x < r.min.x { r.max.x } else if p.x > r.max.x { clamp_63(p.x) } else { r.max.x },
            y: if p.y < r.min.y { r.max.y } else if p.y > r.max.y { clamp_63(p.y) } else { r.max.y },
        },
    }
}

/// The rectangle that holds just `p`.
pub open spec fn point_rect(p: UVec2) -> URect {
    URect { min: p, max: p }
}

/// A rectangle inside a chunk, with its corners in order.
pub open spec fn rect_wf(r: URect) -> bool {
    r.min.x <= r.max.x <= 63 && r.min.y <= r.max.y <= 63
}

/// Every rectangle of the map is well formed.
pub open spec fn rects_wf(m: Map<(i32, i32), URect>) -> bool {
    forall|k: (i32, i32)| #[trigger] m.contains_key(k) ==> rect_wf(m[k])
}

/// The map of dirty rectangles once the atom `cp` is marked dirty.
pub open spec fn with_point(m: Map<(i32, i32), URect>, cp: ChunkPos) -> Map<(i32, i32), URect> {
    let k = crate::math::key_of(cp.chunk);
    if m.contains_key(k) {
        m.insert(k, extended(m[k], cp.atom))
    } else {
        m.insert(k, point_rect(cp.atom))
    }
}

/// The `i`-th atom (for `i` in `0..9`) of the 3x3 square centred on `pos`.
pub open spec fn neighbor(pos: ChunkPos, i: int) -> ChunkPos {
    chunk_pos_at(pos.gx() + (i / 3 - 1), pos.gy() + (i % 3 - 1))
}

/// The map of dirty rectangles once the first `n` atoms of the 3x3 square
/// centred on `pos` are marked dirty, one after the other.
pub open spec fn with_neighbors(m: Map<(i32, i32), URect>, pos: ChunkPos, n: nat) -> Map<
    (i32, i32),
    URect,
>
    decreases n,
{
    if n == 0 {
        m
    } else {
        with_point(with_neighbors(m, pos, (n - 1) as nat), neighbor(pos, n - 1))
    }
}

/// `v` restricted to `lo..=hi`.
fn clamp_u32(v: u32, lo: u32, hi: u32) -> (r: u32)
    requires
        lo <= hi,
    ensures
        r == (if v < lo { lo } else if v > hi { hi } else { v }),
{
    if v < lo {
        lo
    } else if v > hi {
        hi
    } else {
        v
    }
}

/// Grows `rect` so that it holds `pos`; coordinates are clamped to the chunk.
pub fn extend_rect_if_needed(rect: &mut URect, pos: &UVec2)
    ensures
        *final(rect) == extended(*old(rect), *pos),
{
    if pos.x < rect.min.x {
        rect.min.x = clamp_u32(pos.x, 0, 63)
    } else if pos.x > rect.max.x {
        rect.max.x = clamp_u32(pos.x, 0, 63)
    }

    if pos.y < rect.min.y {
        rect.min.y = clamp_u32(pos.y, 0, 63)
    } else if pos.y > rect.max.y {
        rect.max.y = clamp_u32(pos.y, 0, 63)
    }
}

/// Marks the atom at `pos` dirty: grows the rectangle of its chunk, or gives
/// the chunk a rectangle that holds just that atom.
pub fn update_dirty_rects(dirty_rects: &mut RectMap, pos: ChunkPos)
    ensures
        final(dirty_rects)@ == with_point(old(dirty_rects)@, pos),
{
    let k = key(pos.chunk);
    let existing = match dirty_rects.get(&k) {
        Some(r) => Some(*r),
        None => None,
    };
    if let Some(rect) = existing {
        let mut rect = rect;
        extend_rect_if_needed(&mut rect, &pos.atom);
        dirty_rects.insert(k, rect);
    } else {
        dirty_rects.insert(k, URect::new(pos.atom.x, pos.atom.y, pos.atom.x, pos.atom.y));
    }
}

} // verus!

verus! {

/// Atom coordinate `a + d` wrapped into the neighbouring chunk when it leaves
/// `0..64`.
pub open spec fn wrap_atom(a: int, d: int) -> int {
    if a + d < 0 { a + d + 64 } else if a + d > 63 { a + d - 64 } else { a + d }
}

/// Chunk coordinate `c`, moved by one chunk when `a + d` leaves `0..64`.
pub open spec fn wrap_chunk(c: int, a: int, d: int) -> int {
    if a + d < 0 { c - 1 } else if a + d > 63 { c + 1 } else { c }
}

/// The atom `d` steps away from `a` in chunk `c`, along one axis.
proof fn lemma_step_axis(c: int, a: int, d: int)
    requires
        0 <= a < 64,
        -1 <= d <= 1,
    ensures
        (c * 64 + a + d) / 64 == wrap_chunk(c, a, d),
        (c * 64 + a + d) % 64 == wrap_atom(a, d),
{
    if a + d < 0 {
        assert(c * 64 + a + d == (c - 1) * 64 + 63);
        lemma_split(c - 1, 63);
    } else if a + d > 63 {
        assert(c * 64 + a + d == (c + 1) * 64 + 0);
        lemma_split(c + 1, 0);
    } else {
        lemma_split(c, a + d);
    }
}

/// The neighbours of `pos`, chunk and atom, coordinate by coordinate.
pub proof fn lemma_neighbors(pos: ChunkPos)
    requires
        pos.wf(),
        pos.in_range(),
    ensures
        forall|i: int|
            0 <= i < 9 ==> {
                let n = #[trigger] neighbor(pos, i);
                &&& n.atom.x == wrap_atom(pos.atom.x as int, i / 3 - 1)
                &&& n.atom.y == wrap_atom(pos.atom.y as int, i % 3 - 1)
                &&& n.chunk.x == wrap_chunk(pos.chunk.x as int, pos.atom.x as int, i / 3 - 1)
                &&& n.chunk.y == wrap_chunk(pos.chunk.y as int, pos.atom.y as int, i % 3 - 1)
                &&& n.wf()
            },
{
    assert forall|i: int| 0 <= i < 9 implies {
        let n = #[trigger] neighbor(pos, i);
        &&& n.atom.x == wrap_atom(pos.atom.x as int, i / 3 - 1)
        &&& n.atom.y == wrap_atom(pos.atom.y as int, i % 3 - 1)
        &&& n.chunk.x == wrap_chunk(pos.chunk.x as int, pos.atom.x as int, i / 3 - 1)
        &&& n.chunk.y == wrap_chunk(pos.chunk.y as int, pos.atom.y as int, i % 3 - 1)
        &&& n.wf()
    } by {
        lemma_step_axis(pos.chunk.x as int, pos.atom.x as int, i / 3 - 1);
        lemma_step_axis(pos.chunk.y as int, pos.atom.y as int, i % 3 - 1);
    }
}

/// The rectangle of chunk `k` grown by `a` then by `b`, or set to `fresh`
/// where the chunk had none.
pub open spec fn grow2(m: Map<(i32, i32), URect>, k: (i32, i32), a: UVec2, b: UVec2, fresh: URect) -> Map<
    (i32, i32),
    URect,
> {
    if m.contains_key(k) {
        m.insert(k, extended(extended(m[k], a), b))
    } else {
        m.insert(k, fresh)
    }
}

/// Where the 3x3 square lies inside one chunk, marking its two far corners
/// marks all of it.
#[verifier::spinoff_prover]
#[verifier::rlimit(50)]
proof fn lemma_inner_case(m: Map<(i32, i32), URect>, pos: ChunkPos)
    requires
        rects_wf(m),
        pos.wf(),
        pos.in_range(),
        1 <= pos.atom.x < 62,
        1 <= pos.atom.y < 62,
    ensures
        with_neighbors(m, pos, 9) == grow2(
            m,
            crate::math::key_of(pos.chunk),
            UVec2 { x: (pos.atom.x + 1) as u32, y: (pos.atom.y + 1) as u32 },
            UVec2 { x: (pos.atom.x - 1) as u32, y: (pos.atom.y - 1) as u32 },
            URect {
                min: UVec2 { x: (pos.atom.x - 1) as u32, y: (pos.atom.y - 1) as u32 },
                max: UVec2 { x: (pos.atom.x + 1) as u32, y: (pos.atom.y + 1) as u32 },
            },
        ),
{
    lemma_neighbors(pos);
    reveal_with_fuel(with_neighbors, 10);
    assert(with_neighbors(m, pos, 9) =~= grow2(
        m,
        crate::math::key_of(pos.chunk),
        UVec2 { x: (pos.atom.x + 1) as u32, y: (pos.atom.y + 1) as u32 },
        UVec2 { x: (pos.atom.x - 1) as u32, y: (pos.atom.y - 1) as u32 },
        URect {
            min: UVec2 { x: (pos.atom.x - 1) as u32, y: (pos.atom.y - 1) as u32 },
            max: UVec2 { x: (pos.atom.x + 1) as u32, y: (pos.atom.y + 1) as u32 },
        },
    ));
}

/// Where the 3x3 square crosses the left or right edge of the chunk, it is
/// marked by two columns, one in each chunk.
#[verifier::spinoff_prover]
#[verifier::rlimit(50)]
proof fn lemma_side_x_case(m: Map<(i32, i32), URect>, pos: ChunkPos)
    requires
        rects_wf(m),
        pos.wf(),
        pos.in_range(),
        pos.atom.x == 0 || pos.atom.x == 63,
        1 <= pos.atom.y < 62,
    ensures
        ({
            let (x, y) = (pos.atom.x as int, pos.atom.y as int);
            let left = x == 0;
            let m1 = grow2(
                m,
                crate::math::key_of(pos.chunk),
                UVec2 { x: (if left { x } else { x - 1 }) as u32, y: (y - 1) as u32 },
                UVec2 { x: (if left { x + 1 } else { x }) as u32, y: (y + 1) as u32 },
                URect {
                    min: UVec2 { x: (if left { x } else { x - 1 }) as u32, y: (y - 1) as u32 },
                    max: UVec2 { x: (if left { x + 1 } else { x }) as u32, y: (y + 1) as u32 },
                },
            );
            let other = IVec2 {
                x: (if left { pos.chunk.x - 1 } else { pos.chunk.x + 1 }) as i32,
                y: pos.chunk.y,
            };
            let ox: u32 = if left { 63 } else { 0 };
            with_neighbors(m, pos, 9) == grow2(
                m1,
                crate::math::key_of(other),
                UVec2 { x: ox, y: (y + 1) as u32 },
                UVec2 { x: ox, y: (y - 1) as u32 },
                URect { min: UVec2 { x: ox, y: (y - 1) as u32 }, max: UVec2 { x: ox, y: (y + 1) as u32 } },
            )
        }),
{
    lemma_neighbors(pos);
    reveal_with_fuel(with_neighbors, 10);
    let (x, y) = (pos.atom.x as int, pos.atom.y as int);
    let left = x == 0;
    let m1 = grow2(
        m,
        crate::math::key_of(pos.chunk),
        UVec2 { x: (if left { x } else { x - 1 }) as u32, y: (y - 1) as u32 },
        UVec2 { x: (if left { x + 1 } else { x }) as u32, y: (y + 1) as u32 },
        URect {
            min: UVec2 { x: (if left { x } else { x - 1 }) as u32, y: (y - 1) as u32 },
            max: UVec2 { x: (if left { x + 1 } else { x }) as u32, y: (y + 1) as u32 },
        },
    );
    let other = IVec2 {
        x: (if left { pos.chunk.x - 1 } else { pos.chunk.x + 1 }) as i32,
        y: pos.chunk.y,
    };
    let ox: u32 = if left { 63 } else { 0 };
    assert(with_neighbors(m, pos, 9) =~= grow2(
        m1,
        crate::math::key_of(other),
        UVec2 { x: ox, y: (y + 1) as u32 },
        UVec2 { x: ox, y: (y - 1) as u32 },
        URect { min: UVec2 { x: ox, y: (y - 1) as u32 }, max: UVec2 { x: ox, y: (y + 1) as u32 } },
    ));
}

/// Where the 3x3 square crosses the top or bottom edge of the chunk, it is
/// marked by two rows, one in each chunk.
#[verifier::spinoff_prover]
#[verifier::rlimit(50)]
proof fn lemma_side_y_case(m: Map<(i32, i32), URect>, pos: ChunkPos)
    requires
        rects_wf(m),
        pos.wf(),
        pos.in_range(),
        pos.atom.y == 0 || pos.atom.y == 63,
        1 <= pos.atom.x < 62,
    ensures
        ({
            let (x, y) = (pos.atom.x as int, pos.atom.y as int);
            let top = y == 0;
            let m1 = grow2(
                m,
                crate::math::key_of(pos.chunk),
                UVec2 { x: (x - 1) as u32, y: (if top { y } else { y - 1 }) as u32 },
                UVec2 { x: (x + 1) as u32, y: (if top { y + 1 } else { y }) as u32 },
                URect {
                    min: UVec2 { x: (x - 1) as u32, y: (if top { y } else { y - 1 }) as u32 },
                    max: UVec2 { x: (x + 1) as u32, y: (if top { y + 1 } else { y }) as u32 },
                },
            );
            let other = IVec2 {
                x: pos.chunk.x,
                y: (if top { pos.chunk.y - 1 } else { pos.chunk.y + 1 }) as i32,
            };
            let oy: u32 = if top { 63 } else { 0 };
            with_neighbors(m, pos, 9) == grow2(
                m1,
                crate::math::key_of(other),
                UVec2 { x: (x + 1) as u32, y: oy },
                UVec2 { x: (x - 1) as u32, y: oy },
                URect { min: UVec2 { x: (x - 1) as u32, y: oy }, max: UVec2 { x: (x + 1) as u32, y: oy } },
            )
        }),
{
    lemma_neighbors(pos);
    reveal_with_fuel(with_neighbors, 10);
    let (x, y) = (pos.atom.x as int, pos.atom.y as int);
    let top = y == 0;
    let m1 = grow2(
        m,
        crate::math::key_of(pos.chunk),
        UVec2 { x: (x - 1) as u32, y: (if top { y } else { y - 1 }) as u32 },
        UVec2 { x: (x + 1) as u32, y: (if top { y + 1 } else { y }) as u32 },
        URect {
            min: UVec2 { x: (x - 1) as u32, y: (if top { y } else { y - 1 }) as u32 },
            max: UVec2 { x: (x + 1) as u32, y: (if top { y + 1 } else { y }) as u32 },
        },
    );
    let other = IVec2 {
        x: pos.chunk.x,
        y: (if top { pos.chunk.y - 1 } else { pos.chunk.y + 1 }) as i32,
    };
    let oy: u32 = if top { 63 } else { 0 };
    assert(with_neighbors(m, pos, 9) =~= grow2(
        m1,
        crate::math::key_of(other),
        UVec2 { x: (x + 1) as u32, y: oy },
        UVec2 { x: (x - 1) as u32, y: oy },
        URect { min: UVec2 { x: (x - 1) as u32, y: oy }, max: UVec2 { x: (x + 1) as u32, y: oy } },
    ));
}

/// Marking the whole 3x3 square keeps every rectangle well formed.
pub proof fn lemma_with_neighbors_wf(m: Map<(i32, i32), URect>, pos: ChunkPos, n: nat)
    requires
        rects_wf(m),
        pos.wf(),
        pos.in_range(),
        n <= 9,
    ensures
        rects_wf(with_neighbors(m, pos, n)),
    decreases n,
{
    if n > 0 {
        lemma_with_neighbors_wf(m, pos, (n - 1) as nat);
        lemma_neighbors(pos);
        lemma_with_point_wf(with_neighbors(m, pos, (n - 1) as nat), neighbor(pos, n - 1));
    }
}

/// This function gets a single ChunkPos and makes sure that we update the 3x3 surrounding atoms
pub fn update_dirty_rects_3x3(dirty_rects: &mut RectMap, pos: ChunkPos)
    requires
        rects_wf(old(dirty_rects)@),
        pos.wf(),
        pos.in_range(),
    ensures
        final(dirty_rects)@ == with_neighbors(old(dirty_rects)@, pos, 9),
        rects_wf(final(dirty_rects)@),
{
    let ghost old_map = dirty_rects@;
    proof {
        lemma_with_neighbors_wf(old_map, pos, 9);
    }
    let atom = pos.atom;
    let mut chunk = pos.chunk;

    if 1 <= atom.x && atom.x < 62 && 1 <= atom.y && atom.y < 62 {
        // Case where the 3x3 position area is within a chunk
        let k = key(chunk);
        let existing = match dirty_rects.get(&k) {
            Some(r) => Some(*r),
            None => None,
        };
        if let Some(rect) = existing {
            let mut rect = rect;
            extend_rect_if_needed(&mut rect, &uvec2(atom.x + 1, atom.y + 1));
            extend_rect_if_needed(&mut rect, &uvec2(atom.x - 1, atom.y - 1));
            dirty_rects.insert(k, rect);
        } else {
            dirty_rects.insert(
                k,
                URect::new(atom.x - 1, atom.y - 1, atom.x + 1, atom.y + 1),
            );
        }
        proof {
            lemma_inner_case(old_map, pos);
        }
    } else if (atom.x == 0 || atom.x == 63) && 1 <= atom.y && atom.y < 62 {
        // Case where the 3x3 position area is in another chunk into the left or right
        let k = key(chunk);
        let existing = match dirty_rects.get(&k) {
            Some(r) => Some(*r),
            None => None,
        };
        if let Some(rect) = existing {
            let mut rect = rect;
            extend_rect_if_needed(
                &mut rect,
                &(if atom.x == 0 { uvec2(atom.x, atom.y - 1) } else { uvec2(atom.x - 1, atom.y - 1) }),
            );
            extend_rect_if_needed(
                &mut rect,
                &(if atom.x == 0 { uvec2(atom.x + 1, atom.y + 1) } else { uvec2(atom.x, atom.y + 1) }),
            );
            dirty_rects.insert(k, rect);
        } else {
            dirty_rects.insert(
                k,
                URect::new(
                    atom.x - if atom.x == 0 { 0 } else { 1 },
                    atom.y - 1,
                    atom.x + if atom.x == 0 { 1 } else { 0 },
                    atom.y + 1,
                ),
            );
        }

        let x = if atom.x == 0 { 63 } else { 0 };
        if atom.x == 0 {
            chunk.x -= 1
        } else {
            chunk.x += 1
        }
        let k2 = key(chunk);
        let existing2 = match dirty_rects.get(&k2) {
            Some(r) => Some(*r),
            None => None,
        };
        if let Some(rect) = existing2 {
            let mut rect = rect;
            extend_rect_if_needed(&mut rect, &(uvec2(x, atom.y + 1)));
            extend_rect_if_needed(&mut rect, &(uvec2(x, atom.y - 1)));
            dirty_rects.insert(k2, rect);
        } else {
            dirty_rects.insert(k2, URect::new(x, atom.y - 1, x, atom.y + 1));
        }
        proof {
            lemma_side_x_case(old_map, pos);
        }
    } else if (atom.y == 0 || atom.y == 63) && 1 <= atom.x && atom.x < 62 {
        // Case where the 3x3 position area is in another chunk into the up or down
        let k = key(chunk);
        let existing = match dirty_rects.get(&k) {
            Some(r) => Some(*r),
            None => None,
        };
        if let Some(rect) = existing {
            let mut rect = rect;
            extend_rect_if_needed(
                &mut rect,
                &(if atom.y == 0 { uvec2(atom.x - 1, atom.y) } else { uvec2(atom.x - 1, atom.y - 1) }),
            );
            extend_rect_if_needed(
                &mut rect,
                &(if atom.y == 0 { uvec2(atom.x + 1, atom.y + 1) } else { uvec2(atom.x + 1, atom.y) }),
            );
            dirty_rects.insert(k, rect);
        } else {
            dirty_rects.insert(
                k,
                URect::new(
                    atom.x - 1,
                    atom.y - if atom.y == 0 { 0 } else { 1 },
                    atom.x + 1,
                    atom.y + if atom.y == 0 { 1 } else { 0 },
                ),
            );
        }

        let y = if atom.y == 0 { 63 } else { 0 };
        if atom.y == 0 {
            chunk.y -= 1
        } else {
            chunk.y += 1
        }
        let k2 = key(chunk);
        let existing2 = match dirty_rects.get(&k2) {
            Some(r) => Some(*r),
            None => None,
        };
        if let Some(rect) = existing2 {
            let mut rect = rect;
            extend_rect_if_needed(&mut rect, &(uvec2(atom.x + 1, y)));
            extend_rect_if_needed(&mut rect, &(uvec2(atom.x - 1, y)));
            dirty_rects.insert(k2, rect);
        } else {
            dirty_rects.insert(k2, URect::new(atom.x - 1, y, atom.x + 1, y));
        }
        proof {
            lemma_side_y_case(old_map, pos);
        }
    } else {
        // Case where the 3x3 position is in the corner of a chunk
        let mut i: i32 = 0;
        while i < 9
            invariant
                0 <= i <= 9,
                pos.wf(),
                pos.in_range(),
                rects_wf(old_map),
                dirty_rects@ == with_neighbors(old_map, pos, i as nat),
                rects_wf(dirty_rects@),
            decreases 9 - i,
        {
            let (x, y) = (i / 3 - 1, i % 3 - 1);
            let mut global = pos.to_global();
            global.x += x;
            global.y += y;
            let p = global_to_chunk(global);
            proof {
                lemma_neighbors(pos);
                assert(p == neighbor(pos, i as int));
                lemma_with_point_wf(dirty_rects@, p);
            }
            if let Some(rect) = dirty_rects.get(&key(p.chunk)) {
                let mut rect = *rect;
                extend_rect_if_needed(&mut rect, &p.atom);
                dirty_rects.insert(key(p.chunk), rect);
            } else {
                dirty_rects.insert(
                    key(p.chunk),
                    URect::new(p.atom.x, p.atom.y, p.atom.x, p.atom.y),
                );
            }
            i += 1;
        }
    }
}

/// Marking a well-formed atom dirty keeps every rectangle well formed.
pub proof fn lemma_with_point_wf(m: Map<(i32, i32), URect>, cp: ChunkPos)
    requires
        rects_wf(m),
        cp.wf(),
    ensures
        rects_wf(with_point(m, cp)),
{
    let r = with_point(m, cp);
    assert forall|k: (i32, i32)| #[trigger] r.contains_key(k) implies rect_wf(r[k]) by {
        if k != crate::math::key_of(cp.chunk) {
            assert(m.contains_key(k));
        }
    }
}

} // verus!

verus! {

/// The atom `cp` lies in the dirty rectangle of its chunk.
pub open spec fn covered(m: Map<(i32, i32), URect>, cp: ChunkPos) -> bool {
    let k = crate::math::key_of(cp.chunk);
    m.contains_key(k) && m[k].spec_contains(cp.atom)
}

/// Law: going from a global position to a chunk position and back gives the
/// same global position, and the atom lies inside its chunk.
pub proof fn law_global_chunk_roundtrip(gx: int, gy: int)
    requires
        global_coord_ok(gx),
        global_coord_ok(gy),
    ensures
        chunk_pos_at(gx, gy).gx() == gx,
        chunk_pos_at(gx, gy).gy() == gy,
        chunk_pos_at(gx, gy).wf(),
{
    lemma_div_mod_64(gx);
    lemma_div_mod_64(gy);
}

/// Law: a chunk position whose atom lies inside the chunk is given back by
/// `global_to_chunk` of its global position.
pub proof fn law_chunk_global_roundtrip(cp: ChunkPos)
    requires
        cp.wf(),
    ensures
        chunk_pos_at(cp.gx(), cp.gy()) == cp,
{
    lemma_split(cp.chunk.x as int, cp.atom.x as int);
    lemma_split(cp.chunk.y as int, cp.atom.y as int);
}

/// Law: marking an atom dirty covers it, and every atom that was covered
/// stays covered; rectangles stay well formed.
pub proof fn law_mark_covers(m: Map<(i32, i32), URect>, cp: ChunkPos, other: ChunkPos)
    requires
        rects_wf(m),
        cp.wf(),
    ensures
        covered(with_point(m, cp), cp),
        covered(m, other) ==> covered(with_point(m, cp), other),
        rects_wf(with_point(m, cp)),
{
    lemma_with_point_wf(m, cp);
}

/// Marking the first `n` atoms of the square covers them, and keeps covered
/// every atom that was covered.
proof fn lemma_with_neighbors_covers(m: Map<(i32, i32), URect>, pos: ChunkPos, n: nat, other: ChunkPos)
    requires
        rects_wf(m),
        pos.wf(),
        pos.in_range(),
        n <= 9,
    ensures
        forall|i: int| 0 <= i < n ==> covered(with_neighbors(m, pos, n), #[trigger] neighbor(pos, i)),
        covered(m, other) ==> covered(with_neighbors(m, pos, n), other),
    decreases n,
{
    if n > 0 {
        let prev = with_neighbors(m, pos, (n - 1) as nat);
        lemma_with_neighbors_covers(m, pos, (n - 1) as nat, other);
        lemma_with_neighbors_wf(m, pos, (n - 1) as nat);
        lemma_neighbors(pos);
        law_mark_covers(prev, neighbor(pos, n - 1), other);
        assert forall|i: int| 0 <= i < n implies covered(
            with_neighbors(m, pos, n),
            #[trigger] neighbor(pos, i),
        ) by {
            if i < n - 1 {
                lemma_with_neighbors_covers(m, pos, (n - 1) as nat, neighbor(pos, i));
                law_mark_covers(prev, neighbor(pos, n - 1), neighbor(pos, i));
            }
        }
    }
}

/// Law: after `update_dirty_rects_3x3`, each of the nine atoms of the 3x3
/// square centred on `pos` (across chunk borders) lies in the dirty rectangle
/// of its chunk, and every atom that was covered before stays covered.
pub proof fn law_3x3_covers_square(m: Map<(i32, i32), URect>, pos: ChunkPos, dx: int, dy: int, other: ChunkPos)
    requires
        rects_wf(m),
        pos.wf(),
        pos.in_range(),
        -1 <= dx <= 1,
        -1 <= dy <= 1,
    ensures
        covered(with_neighbors(m, pos, 9), chunk_pos_at(pos.gx() + dx, pos.gy() + dy)),
        covered(m, other) ==> covered(with_neighbors(m, pos, 9), other),
        rects_wf(with_neighbors(m, pos, 9)),
{
    lemma_with_neighbors_covers(m, pos, 9, other);
    lemma_with_neighbors_wf(m, pos, 9);
    let i = (dx + 1) * 3 + (dy + 1);
    assert(neighbor(pos, i) == chunk_pos_at(pos.gx() + dx, pos.gy() + dy));
}

} // verus!

verus! {

/// Index of a position in the atoms of a chunk, row by row.
pub trait D1 {
    /// `y * CHUNK_LENGHT + x`, as an integer.
    spec fn d1_spec(&self) -> int;

    /// The index is computed without overflow.
    spec fn d1_ok(&self) -> bool;

    /// Transforms a position to an index for a chunk's atoms vec.
    fn d1(&self) -> (r: usize)
        requires
            self.d1_ok(),
        ensures
            self.d1_spec() >= 0 ==> r == self.d1_spec(),
    ;
}

impl D1 for IVec2 {
    open spec fn d1_spec(&self) -> int {
        self.y * 64 + self.x
    }

    open spec fn d1_ok(&self) -> bool {
        i32::MIN <= self.y * 64 <= i32::MAX && i32::MIN <= self.y * 64 + self.x <= i32::MAX
    }

    /// Transforms a IVec2 to a index for a chunk atoms vec
    fn d1(&self) -> (r: usize) {
        (self.y * CHUNK_LENGHT as i32 + self.x) as usize
    }
}

impl D1 for UVec2 {
    open spec fn d1_spec(&self) -> int {
        self.y * 64 + self.x
    }

    open spec fn d1_ok(&self) -> bool {
        self.y * 64 + self.x <= u32::MAX
    }

    /// Transforms a UVec2 to a index for a chunk atoms vec
    fn d1(&self) -> (r: usize) {
        (self.y * CHUNK_LENGHT as u32 + self.x) as usize
    }
}

} // verus!

verus! {

/// A deferred update message.
/// Indicates that an image or dirty rect should update.
#[derive(Clone, Copy, Debug, PartialEq, Eq, Structural)]
pub struct DeferredDirtyRectUpdate {
    pub chunk_pos: ChunkPos,
    pub awake_surrouding: bool,
}

} // verus!

verus! {

/// `fastrand::shuffle`: reorders the slice at random. Its source only swaps
/// elements, so the same elements come out, as many times each; the order is
/// left open.
#[verifier::external_body]
fn shuffle_i32(v: &mut Vec<i32>)
    ensures
        final(v)@.to_multiset() == old(v)@.to_multiset(),
{
    fastrand::shuffle(v.as_mut_slice())
}

// Shuflles range
/// The integers of `vec`, each once, in a random order.
pub fn rand_range(vec: std::ops::Range<i32>) -> (r: Vec<i32>)
    ensures
        r@.len() == if vec.start < vec.end { vec.end - vec.start } else { 0 },
        r@.no_duplicates(),
        forall|v: i32| r@.contains(v) <==> vec.start <= v < vec.end,
{
    broadcast use vstd::seq_lib::group_to_multiset_ensures;

    let mut v: Vec<i32> = Vec::new();
    let mut i = vec.start;
    while i < vec.end
        invariant
            vec.start <= i <= vec.end || (vec.start >= vec.end && i == vec.start),
            v@.len() == i - vec.start,
            forall|k: int| 0 <= k < v@.len() ==> v@[k] == vec.start + k,
        decreases vec.end - i,
    {
        v.push(i);
        i += 1;
    }
    proof {
        assert(v@.no_duplicates());
        v@.lemma_multiset_has_no_duplicates();
    }
    let ghost s0 = v@;
    shuffle_i32(&mut v);
    proof {
        assert forall|x: i32| v@.to_multiset().contains(x) implies v@.to_multiset().count(x) == 1 by {
            assert(s0.to_multiset().contains(x));
        }
        v@.lemma_multiset_has_no_duplicates_conv();
        assert forall|x: i32| v@.contains(x) <==> vec.start <= x < vec.end by {
            assert(v@.contains(x) <==> v@.to_multiset().count(x) > 0);
            assert(s0.contains(x) <==> s0.to_multiset().count(x) > 0);
            if vec.start <= x < vec.end {
                assert(s0[x - vec.start] == x);
            }
        }
        assert(v@.len() == v@.to_multiset().len());
        assert(s0.len() == s0.to_multiset().len());
    }
    v
}

} // verus!

verus! {

/// The smallest rectangle that holds `r` and `p`.
pub open spec fn bounding(r: URect, p: UVec2) -> URect {
    URect {
        min: UVec2 {
            x: if p.x < r.min.x { p.x } else { r.min.x },
            y: if p.y < r.min.y { p.y } else { r.min.y },
        },
        max: UVec2 {
            x: if p.x > r.max.x { p.x } else { r.max.x },
            y: if p.y > r.max.y { p.y } else { r.max.y },
        },
    }
}

/// Growing a well-formed rectangle by an atom of its chunk gives the smallest
/// rectangle that holds both.
proof fn lemma_extended_bounding(r: URect, p: UVec2)
    requires
        rect_wf(r),
        p.x < 64,
        p.y < 64,
    ensures
        extended(r, p) == bounding(r, p),
{
}

/// Law: marking two atoms dirty, one after the other, gives the same map in
/// either order.
pub proof fn law_mark_commutes(m: Map<(i32, i32), URect>, a: ChunkPos, b: ChunkPos)
    requires
        rects_wf(m),
        a.wf(),
        b.wf(),
    ensures
        with_point(with_point(m, a), b) == with_point(with_point(m, b), a),
{
    let ka = crate::math::key_of(a.chunk);
    let kb = crate::math::key_of(b.chunk);
    lemma_with_point_wf(m, a);
    lemma_with_point_wf(m, b);
    if m.contains_key(ka) {
        lemma_extended_bounding(m[ka], a.atom);
    }
    if m.contains_key(kb) {
        lemma_extended_bounding(m[kb], b.atom);
    }
    let ma = with_point(m, a);
    let mb = with_point(m, b);
    if ma.contains_key(kb) {
        lemma_extended_bounding(ma[kb], b.atom);
    }
    if mb.contains_key(ka) {
        lemma_extended_bounding(mb[ka], a.atom);
    }
    if ka == kb {
        if m.contains_key(ka) {
            lemma_extended_bounding(m[ka], a.atom);
        }
    }
    assert(with_point(ma, b) =~= with_point(mb, a));
}

/// Marking an atom that is already covered changes nothing.
proof fn lemma_mark_covered(m: Map<(i32, i32), URect>, a: ChunkPos)
    requires
        rects_wf(m),
        a.wf(),
        covered(m, a),
    ensures
        with_point(m, a) == m,
{
    let k = crate::math::key_of(a.chunk);
    lemma_extended_bounding(m[k], a.atom);
    assert(with_point(m, a) =~= m);
}

/// Marking one atom and then the first `n` atoms of a 3x3 square is the
/// same as marking them in the other order.
proof fn lemma_point_past_square(m: Map<(i32, i32), URect>, a: ChunkPos, q: ChunkPos, n: nat)
    requires
        rects_wf(m),
        a.wf(),
        q.wf(),
        q.in_range(),
        n <= 9,
    ensures
        with_point(with_neighbors(m, q, n), a) == with_neighbors(with_point(m, a), q, n),
    decreases n,
{
    if n > 0 {
        lemma_point_past_square(m, a, q, (n - 1) as nat);
        lemma_neighbors(q);
        lemma_with_neighbors_wf(m, q, (n - 1) as nat);
        law_mark_commutes(with_neighbors(m, q, (n - 1) as nat), a, neighbor(q, n - 1));
    }
}

/// Marking the first `n` atoms of the square around `p` and then the square
/// around `q` is the same as marking them in the other order.
proof fn lemma_square_past_square(m: Map<(i32, i32), URect>, p: ChunkPos, q: ChunkPos, n: nat)
    requires
        rects_wf(m),
        p.wf(),
        p.in_range(),
        q.wf(),
        q.in_range(),
        n <= 9,
    ensures
        with_neighbors(with_neighbors(m, p, n), q, 9) == with_neighbors(with_neighbors(m, q, 9), p, n),
    decreases n,
{
    if n > 0 {
        let prev = with_neighbors(m, p, (n - 1) as nat);
        let a = neighbor(p, n - 1);
        lemma_square_past_square(m, p, q, (n - 1) as nat);
        lemma_neighbors(p);
        lemma_with_neighbors_wf(m, p, (n - 1) as nat);
        lemma_point_past_square(prev, a, q, 9);
    }
}

/// Law: marking the 3x3 squares around two atoms dirty gives the same map in
/// either order, so the order in which the messages arrive does not matter.
pub proof fn law_3x3_commutes(m: Map<(i32, i32), URect>, p: ChunkPos, q: ChunkPos)
    requires
        rects_wf(m),
        p.wf(),
        p.in_range(),
        q.wf(),
        q.in_range(),
    ensures
        with_neighbors(with_neighbors(m, p, 9), q, 9) == with_neighbors(with_neighbors(m, q, 9), p, 9),
{
    lemma_square_past_square(m, p, q, 9);
}

/// Marking the first `n` atoms of the square around `p` again, once the
/// whole square is marked, changes nothing.
proof fn lemma_square_again(m: Map<(i32, i32), URect>, p: ChunkPos, n: nat)
    requires
        rects_wf(m),
        p.wf(),
        p.in_range(),
        n <= 9,
    ensures
        with_neighbors(with_neighbors(m, p, 9), p, n) == with_neighbors(m, p, 9),
    decreases n,
{
    if n > 0 {
        let full = with_neighbors(m, p, 9);
        lemma_square_again(m, p, (n - 1) as nat);
        lemma_with_neighbors_wf(m, p, 9);
        lemma_neighbors(p);
        lemma_with_neighbors_covers(m, p, 9, neighbor(p, n - 1));
        assert(covered(full, neighbor(p, n - 1)));
        lemma_mark_covered(full, neighbor(p, n - 1));
    }
}

/// Law: marking the 3x3 square around an atom twice gives the same map as
/// marking it once.
pub proof fn law_3x3_idempotent(m: Map<(i32, i32), URect>, p: ChunkPos)
    requires
        rects_wf(m),
        p.wf(),
        p.in_range(),
    ensures
        with_neighbors(with_neighbors(m, p, 9), p, 9) == with_neighbors(m, p, 9),
{
    lemma_square_again(m, p, 9);
}

} // verus!

