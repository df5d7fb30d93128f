//! The falling of powders. Which side neighbours a falling powder wakes, and
//! the kick it gets when it lands, come from chances and angles drawn by the
//! caller; the steps below decide the rest.
use vstd::prelude::*;
use crate::atom::Atom;
use crate::consts::{ATOM_TERM_VEL, GRAVITY};
use crate::group_api::{
    atom_of, put, swap, get_speed, set_speed, inner, lemma_id_ok, dirty_msg, UpdateChunksType, swapable_with,
    swap_decision_in, get_material, get_moving, random_bool, random_below,
};
use crate::atom_update::{shifted, swapped_world, inserted, insert_pos, in_center, lemma_insert_props};
use crate::manager_api::DeferredDirtyRectUpdate;
use crate::materials::{Material, Materials};
use crate::math::{IVec2, ivec2};

verus! {

/// The world once the side neighbours of `pos` are woken: the left one where
/// `wake.0`, and then the right one where `wake.1` too.
pub open spec fn woken(w: Map<IVec2, Atom>, pos: IVec2, wake: (bool, bool)) -> Map<IVec2, Atom> {
    let l = shifted(pos, -1, 0);
    let r = shifted(pos, 1, 0);
    if !wake.0 {
        w
    } else {
        let w1 = w.insert(l, Atom { moving: true, ..w[l] });
        if !wake.1 {
            w1
        } else {
            w1.insert(r, Atom { moving: true, ..w1[r] })
        }
    }
}

/// The neighbours that `wake` wakes are held by the group.
pub open spec fn wake_ok(w: Map<IVec2, Atom>, pos: IVec2, wake: (bool, bool)) -> bool {
    &&& wake.0 ==> w.contains_key(shifted(pos, -1, 0))
    &&& wake.0 && wake.1 ==> w.contains_key(shifted(pos, 1, 0))
}

/// Wakes the side neighbours of `pos`: the left one where `wake.0`, then,
/// where `wake.1` too, the right one. (Each is woken with a chance, and the
/// second only once the first was.)
pub fn set_moving_with(chunks: &mut UpdateChunksType, pos: IVec2, wake: (bool, bool))
    requires
        old(chunks).wf(),
        inner(pos),
        wake_ok(old(chunks).world(), pos, wake),
    ensures
        final(chunks).wf(),
        final(chunks).world() == woken(old(chunks).world(), pos, wake),
        final(chunks).materials == old(chunks).materials,
        final(chunks).group.center_pos == old(chunks).group.center_pos,
        final(chunks).dirty_update_rects == old(chunks).dirty_update_rects,
        final(chunks).dirty_render_rects == old(chunks).dirty_render_rects,
{
    if wake.0 {
        let l = ivec2(pos.x - 1, pos.y);
        assert(chunks.world().contains_key(l));
        let mut a = atom_of(chunks, l);
        proof {
            lemma_id_ok(*chunks, l);
        }
        a.moving = true;
        put(chunks, l, a);
        if wake.1 {
            let r = ivec2(pos.x + 1, pos.y);
            assert(chunks.world().contains_key(r));
            let mut b = atom_of(chunks, r);
            proof {
                lemma_id_ok(*chunks, r);
            }
            b.moving = true;
            put(chunks, r, b);
        }
    }
}

/// The falling speed of a powder whose speed was `s`, once gravity acts.
pub open spec fn speed_after_gravity(s: u8) -> u8 {
    if s < ATOM_TERM_VEL { (s + GRAVITY) as u8 } else { s }
}

/// The falling speed that gravity gives the powder at `pos`.
pub fn speed_of(chunks: &UpdateChunksType, pos: IVec2) -> (s: u8)
    requires
        chunks.wf(),
        chunks.has(pos),
    ensures
        s == speed_after_gravity(chunks.world()[pos].speed.1 as u8),
{
    let s = get_speed(chunks, pos);
    if s < ATOM_TERM_VEL {
        s + GRAVITY
    } else {
        s
    }
}

/// Gravity on the powder at `pos`: below the terminal speed its falling
/// speed grows by `GRAVITY`. Returns the new falling speed.
pub fn powder_gravity(chunks: &mut UpdateChunksType, pos: IVec2) -> (speed: u8)
    requires
        old(chunks).wf(),
        old(chunks).has(pos),
    ensures
        speed == speed_after_gravity(old(chunks).world()[pos].speed.1 as u8),
        final(chunks).wf(),
        final(chunks).world() == if (old(chunks).world()[pos].speed.1 as u8) < ATOM_TERM_VEL {
            old(chunks).world().insert(
                pos,
                Atom { speed: (old(chunks).world()[pos].speed.0, speed as i8), ..old(chunks).world()[pos] },
            )
        } else {
            old(chunks).world()
        },
        final(chunks).materials == old(chunks).materials,
        final(chunks).group.center_pos == old(chunks).group.center_pos,
        final(chunks).dirty_update_rects == old(chunks).dirty_update_rects,
        final(chunks).dirty_render_rects == old(chunks).dirty_render_rects,
{
    let mut speed = get_speed(chunks, pos);
    if speed < ATOM_TERM_VEL {
        speed += GRAVITY;
        set_speed(chunks, pos, speed);
    }
    speed
}

/// The offset of the first neighbour of `neigh` that can be swapped.
pub open spec fn first_free(neigh: [(bool, IVec2); 3]) -> Option<IVec2> {
    if neigh[0].0 {
        Some(neigh[0].1)
    } else if neigh[1].0 {
        Some(neigh[1].1)
    } else if neigh[2].0 {
        Some(neigh[2].1)
    } else {
        None
    }
}

/// The world after a step of the powder at `cur` (see `powder_step_with`),
/// and where the powder went.
pub open spec fn powder_stepped(
    chunks: UpdateChunksType,
    cur: IVec2,
    dt: u8,
    neigh: [(bool, IVec2); 3],
    wake_first: (bool, bool),
    wake_swap: (bool, bool),
) -> (Map<IVec2, Atom>, Option<IVec2>) {
    let w = chunks.world();
    let w1 = if w[cur].moving { woken(w, cur, wake_first) } else { w };
    match first_free(neigh) {
        Some(off) => {
            let next = shifted(cur, off.x as int, off.y as int);
            (swapped_world(woken(w1, cur, wake_swap), chunks.materials, cur, next, dt), Some(next))
        },
        None => (w1, None),
    }
}

/// The neighbours that may be swapped lie below `cur`, in the group.
pub open spec fn neigh_ok(w: Map<IVec2, Atom>, cur: IVec2, neigh: [(bool, IVec2); 3]) -> bool {
    forall|j: int|
        0 <= j < 3 && (#[trigger] neigh[j]).0 ==> -1 <= neigh[j].1.x <= 1 && neigh[j].1.y == 1 && w.contains_key(
            shifted(cur, neigh[j].1.x as int, 1),
        )
}

/// One step of the powder at `cur`, whose down neighbours are `neigh` (as
/// `down_neigh` gives them): where the powder is moving, its side
/// neighbours are woken as `wake_first` says; then it swaps with the first
/// neighbour that can be swapped, waking its side neighbours as `wake_swap`
/// says just before. Returns where the powder went, or `None` where no
/// neighbour could be swapped.
pub fn powder_step_with(
    chunks: &mut UpdateChunksType,
    cur: IVec2,
    dt: u8,
    neigh: [(bool, IVec2); 3],
    wake_first: (bool, bool),
    wake_swap: (bool, bool),
) -> (r: Option<IVec2>)
    requires
        old(chunks).wf(),
        old(chunks).has(cur),
        inner(cur),
        old(chunks).materials.0.len() > 0,
        neigh_ok(old(chunks).world(), cur, neigh),
        old(chunks).world()[cur].moving ==> wake_ok(old(chunks).world(), cur, wake_first),
        first_free(neigh) is Some ==> wake_ok(old(chunks).world(), cur, wake_swap),
    ensures
        (final(chunks).world(), r) == powder_stepped(*old(chunks), cur, dt, neigh, wake_first, wake_swap),
        final(chunks).wf(),
        final(chunks).materials == old(chunks).materials,
        final(chunks).group.center_pos == old(chunks).group.center_pos,
        final(chunks).dirty_update_rects == old(chunks).dirty_update_rects,
        final(chunks).world().dom() == old(chunks).world().dom(),
        final(chunks).dirty_render_rects@ == match r {
            Some(next) => old(chunks).dirty_render_rects@.push(
                dirty_msg(old(chunks).group.center_pos, cur, false),
            ).push(dirty_msg(old(chunks).group.center_pos, next, false)),
            None => old(chunks).dirty_render_rects@,
        },
{
    let ghost w0 = chunks.world();
    let moving = atom_of(chunks, cur).moving;
    if moving {
        set_moving_with(chunks, cur, wake_first);
    }
    let ghost w1 = chunks.world();
    assert(w1.dom() =~= w0.dom());
    let mut j: usize = 0;
    while j < 3 && !neigh[j].0
        invariant
            j <= 3,
            forall|i: int| 0 <= i < j ==> !(#[trigger] neigh[i]).0,
        decreases 3 - j,
    {
        j += 1;
    }
    if j == 3 {
        assert(chunks.world().dom() =~= w0.dom());
        return None;
    }
    assert(neigh[j as int].0);
    let off = neigh[j].1;
    let next = ivec2(cur.x + off.x, cur.y + off.y);
    assert(first_free(neigh) == Some(off));
    set_moving_with(chunks, cur, wake_swap);
    let ghost w2 = chunks.world();
    assert(w2.dom() =~= w0.dom());
    assert(chunks.world().contains_key(cur));
    assert(chunks.world().contains_key(next));
    swap(chunks, cur, next, dt);
    proof {
        assert(woken(w2, cur, (false, false)) == w2);
        assert(chunks.world().dom() =~= w0.dom());
    }
    Some(next)
}

/// The chance, in thousandths, that water gives way to a falling powder.
pub const WATER_GIVES_WAY: u16 = 200;

/// The entries of `swapable` for a falling powder: water gives way one time
/// in five.
pub open spec fn powder_ids() -> Seq<(u8, u16)> {
    seq![(3u8, WATER_GIVES_WAY)]
}

/// The entry for the neighbour of `cur` at offset `(dx, 1)`, `d` being the
/// number drawn for it.
pub open spec fn powder_entry(
    w: Map<IVec2, Atom>,
    materials: Materials,
    cur: IVec2,
    dt: u8,
    dx: i32,
    d: u16,
) -> (bool, IVec2) {
    let m = materials.of(w[cur].id);
    (swap_decision_in(w, materials, shifted(cur, dx as int, 1), powder_ids(), m, dt, seq![d]), IVec2 { x: dx, y: 1 })
}

/// The down neighbours of the powder at `cur` (as `down_neigh` gives them)
/// for the coin `flip` and the numbers `draws` drawn for straight down, the
/// left and the right diagonal.
pub open spec fn powder_neigh_spec(
    w: Map<IVec2, Atom>,
    materials: Materials,
    cur: IVec2,
    dt: u8,
    flip: bool,
    draws: [u16; 3],
) -> [(bool, IVec2); 3] {
    let m = materials.of(w[cur].id);
    let down = powder_entry(w, materials, cur, dt, 0i32, draws[0]);
    let left = powder_entry(w, materials, cur, dt, -1i32, draws[1]);
    let right = powder_entry(w, materials, cur, dt, 1i32, draws[2]);
    let zero = (false, IVec2 { x: 0, y: 0 });
    if m.is_powder_spec() && !w[cur].moving {
        [down, zero, zero]
    } else if flip {
        [down, right, left]
    } else {
        [down, left, right]
    }
}

/// The down neighbours of the powder at `cur` for the coin `flip` and the
/// numbers `draws` drawn for straight down, the left and the right diagonal.
pub fn powder_neigh(chunks: &UpdateChunksType, cur: IVec2, dt: u8, flip: bool, draws: [u16; 3]) -> (neigh: [(
    bool,
    IVec2,
); 3])
    requires
        chunks.wf(),
        chunks.has(cur),
        crate::group_api::down_ok(cur),
    ensures
        neigh == powder_neigh_spec(chunks.world(), chunks.materials, cur, dt, flip, draws),
{
    let ids = [(3u8, WATER_GIVES_WAY)];
    assert(ids@ == powder_ids());
    let material = get_material(chunks, cur);
    let only_down = material.is_powder() && !get_moving(chunks, cur);
    proof {
        crate::group_api::lemma_near_center_ok(*chunks, IVec2 { x: cur.x, y: (cur.y + 1) as i32 });
        crate::group_api::lemma_near_center_ok(*chunks, IVec2 { x: (cur.x - 1) as i32, y: (cur.y + 1) as i32 });
        crate::group_api::lemma_near_center_ok(*chunks, IVec2 { x: (cur.x + 1) as i32, y: (cur.y + 1) as i32 });
    }
    let d0 = [draws[0]];
    let d1 = [draws[1]];
    let d2 = [draws[2]];
    assert(d0@ == seq![draws[0]]);
    assert(d1@ == seq![draws[1]]);
    assert(d2@ == seq![draws[2]]);
    let down = (swapable_with(chunks, ivec2(cur.x, cur.y + 1), &ids, material, dt, &d0), ivec2(0, 1));
    let zero = (false, ivec2(0, 0));
    if only_down {
        return [down, zero, zero];
    }
    let left = (swapable_with(chunks, ivec2(cur.x - 1, cur.y + 1), &ids, material, dt, &d1), ivec2(-1, 1));
    let right = (swapable_with(chunks, ivec2(cur.x + 1, cur.y + 1), &ids, material, dt, &d2), ivec2(1, 1));
    if flip {
        [down, right, left]
    } else {
        [down, left, right]
    }
}

/// A falling powder: the world, where the powder is, the positions
/// awakened, the render messages, and whether it stopped.
pub type PowderState = (Map<IVec2, Atom>, IVec2, Seq<IVec2>, Seq<DeferredDirtyRectUpdate>, bool);

/// What a step draws: the coin for the order of the diagonals, the numbers
/// drawn for the three neighbours, and which side neighbours are woken
/// before looking down and before swapping.
pub struct PowderDraw {
    pub flip: bool,
    pub draws: [u16; 3],
    pub wake_first: (bool, bool),
    pub wake_swap: (bool, bool),
}

/// One step of the falling powder `s` with the draws `d` (see
/// `powder_step_with`): a stopped powder stays stopped.
#[verifier::opaque]
pub open spec fn powder_next(s: PowderState, materials: Materials, center: IVec2, dt: u8, d: PowderDraw) -> PowderState {
    if s.4 {
        s
    } else {
        let neigh = powder_neigh_spec(s.0, materials, s.1, dt, d.flip, d.draws);
        let w1 = if s.0[s.1].moving { woken(s.0, s.1, d.wake_first) } else { s.0 };
        match first_free(neigh) {
            Some(off) => {
                let next = shifted(s.1, off.x as int, off.y as int);
                (
                    swapped_world(woken(w1, s.1, d.wake_swap), materials, s.1, next, dt),
                    next,
                    inserted(inserted(s.2, s.1), next),
                    s.3.push(dirty_msg(center, s.1, false)).push(dirty_msg(center, next, false)),
                    false,
                )
            },
            None => (w1, s.1, s.2, s.3, true),
        }
    }
}

/// The side neighbours that the step of `s` with the draws `d` wakes are
/// held by the group.
#[verifier::opaque]
pub open spec fn powder_next_ok(s: PowderState, materials: Materials, dt: u8, d: PowderDraw) -> bool {
    !s.4 ==> {
        let neigh = powder_neigh_spec(s.0, materials, s.1, dt, d.flip, d.draws);
        &&& s.0[s.1].moving ==> wake_ok(s.0, s.1, d.wake_first)
        &&& first_free(neigh) is Some ==> wake_ok(s.0, s.1, d.wake_swap)
    }
}

/// The falling powder `s` after `n` steps with the draws `ds`.
pub open spec fn powder_run(s: PowderState, materials: Materials, center: IVec2, dt: u8, ds: Seq<PowderDraw>, n: nat) -> PowderState
    decreases n,
{
    if n == 0 {
        s
    } else {
        powder_next(powder_run(s, materials, center, dt, ds, (n - 1) as nat), materials, center, dt, ds[n - 1])
    }
}

/// Every one of the first `n` steps wakes only neighbours the group holds.
pub open spec fn powder_run_ok(s: PowderState, materials: Materials, center: IVec2, dt: u8, ds: Seq<PowderDraw>, n: nat) -> bool
    decreases n,
{
    n == 0 || (powder_run_ok(s, materials, center, dt, ds, (n - 1) as nat) && powder_next_ok(
        powder_run(s, materials, center, dt, ds, (n - 1) as nat),
        materials,
        dt,
        ds[n - 1],
    ))
}

/// A powder that stopped after `i` steps stays where it is up to `n` steps.
proof fn lemma_powder_stopped(s: PowderState, materials: Materials, center: IVec2, dt: u8, ds: Seq<PowderDraw>, i: nat, n: nat)
    requires
        i <= n,
        powder_run(s, materials, center, dt, ds, i).4,
    ensures
        powder_run(s, materials, center, dt, ds, n) == powder_run(s, materials, center, dt, ds, i),
    decreases n - i,
{
    reveal(powder_next);
    if n > i {
        lemma_powder_stopped(s, materials, center, dt, ds, i, (n - 1) as nat);
    }
}

/// The steps up to `n` are all fine when those up to a later step are.
proof fn lemma_powder_run_ok(s: PowderState, materials: Materials, center: IVec2, dt: u8, ds: Seq<PowderDraw>, i: nat, n: nat)
    requires
        i <= n,
        powder_run_ok(s, materials, center, dt, ds, n),
    ensures
        powder_run_ok(s, materials, center, dt, ds, i),
    decreases n - i,
{
    if n > i {
        lemma_powder_run_ok(s, materials, center, dt, ds, i, (n - 1) as nat);
    }
}

/// The group holds every position that a powder at `pos` falling `n` rows
/// may reach or wake: the rows `pos.y ..= pos.y + n`, `n + 1` columns to
/// each side.
pub open spec fn held_around(w: Map<IVec2, Atom>, pos: IVec2, n: int) -> bool {
    forall|p: IVec2|
        pos.y <= p.y <= pos.y + n && pos.x - n - 1 <= p.x <= pos.x + n + 1 ==> #[trigger] w.contains_key(p)
}

/// Every step among the first `n` of `ds` that wakes a neighbour finds held
/// what the powder may reach or wake by then.
pub open spec fn wakes_held(w: Map<IVec2, Atom>, pos: IVec2, ds: Seq<PowderDraw>, n: nat) -> bool {
    forall|i: int|
        0 <= i < n && ((#[trigger] ds[i]).wake_first.0 || ds[i].wake_swap.0) ==> held_around(w, pos, i)
}

/// Where the group holds what a powder may reach when it wakes a neighbour, its first `i` steps keep
/// the positions held, stay within `i` rows below and `i` columns aside,
/// and wake only held neighbours.
proof fn lemma_powder_shape(s0: PowderState, materials: Materials, center: IVec2, dt: u8, ds: Seq<PowderDraw>, i: nat, n: nat)
    requires
        in_center(s0.1),
        i <= n <= 21,
        wakes_held(s0.0, s0.1, ds, n),
        s0.0.contains_key(s0.1),
    ensures
        ({
            let r = powder_run(s0, materials, center, dt, ds, i);
            &&& r.0.dom() == s0.0.dom()
            &&& r.0.contains_key(r.1)
            &&& s0.1.y <= r.1.y <= s0.1.y + i
            &&& s0.1.x - i <= r.1.x <= s0.1.x + i
        }),
        powder_run_ok(s0, materials, center, dt, ds, i),
    decreases i,
{
    reveal(powder_next);
    reveal(powder_next_ok);
    if i > 0 {
        lemma_powder_shape(s0, materials, center, dt, ds, (i - 1) as nat, n);
        let r = powder_run(s0, materials, center, dt, ds, (i - 1) as nat);
        let d = ds[i - 1];
        if !r.4 {
            let cur = r.1;
            let l = shifted(cur, -1, 0);
            let rt = shifted(cur, 1, 0);
            if d.wake_first.0 || d.wake_swap.0 {
                assert(held_around(s0.0, s0.1, i - 1));
                assert(r.0.contains_key(l));
                assert(r.0.contains_key(rt));
            }
            assert(powder_next_ok(r, materials, dt, d));
            let neigh = powder_neigh_spec(r.0, materials, cur, dt, d.flip, d.draws);
            let w1 = if r.0[cur].moving { woken(r.0, cur, d.wake_first) } else { r.0 };
            assert(w1.dom() =~= r.0.dom());
            assert(woken(w1, cur, d.wake_swap).dom() =~= r.0.dom());
            match first_free(neigh) {
                Some(off) => {
                    let next = shifted(cur, off.x as int, off.y as int);
                    assert(r.0.contains_key(next));
                    assert(swapped_world(woken(w1, cur, d.wake_swap), materials, cur, next, dt).dom() =~= r.0.dom());
                },
                None => {},
            }
        }
    }
}

/// Where a powder update starts: the world once gravity acted on the powder
/// at `pos`.
pub open spec fn powder_start(chunks: UpdateChunksType, pos: IVec2) -> PowderState {
    let w = chunks.world();
    let s = w[pos].speed.1 as u8;
    let w1 = if s < ATOM_TERM_VEL {
        w.insert(pos, Atom { speed: (w[pos].speed.0, speed_after_gravity(s) as i8), ..w[pos] })
    } else {
        w
    };
    (w1, pos, Seq::empty(), chunks.dirty_render_rects@, false)
}

/// One step of the falling powder at `cur` with the draws `d`: returns where
/// it is and whether it stopped.
fn powder_advance(chunks: &mut UpdateChunksType, awakened: &mut Vec<IVec2>, cur: IVec2, dt: u8, d: &PowderDraw) -> (r: (
    IVec2,
    bool,
))
    requires
        old(chunks).wf(),
        old(chunks).has(cur),
        inner(cur),
        old(chunks).materials.0.len() > 0,
        old(awakened)@.no_duplicates(),
        powder_next_ok((old(chunks).world(), cur, old(awakened)@, old(chunks).dirty_render_rects@, false), old(chunks).materials, dt, *d),
    ensures
        (final(chunks).world(), r.0, final(awakened)@, final(chunks).dirty_render_rects@, r.1) == powder_next(
            (old(chunks).world(), cur, old(awakened)@, old(chunks).dirty_render_rects@, false),
            old(chunks).materials,
            old(chunks).group.center_pos,
            dt,
            *d,
        ),
        final(chunks).wf(),
        final(chunks).materials == old(chunks).materials,
        final(chunks).group.center_pos == old(chunks).group.center_pos,
        final(chunks).dirty_update_rects == old(chunks).dirty_update_rects,
        final(chunks).world().dom() == old(chunks).world().dom(),
        final(chunks).world().contains_key(r.0),
        final(awakened)@.no_duplicates(),
        r.0.y == cur.y + (if r.1 { 0int } else { 1int }),
        cur.x - 1 <= r.0.x <= cur.x + 1,
{
    reveal(powder_next);
    reveal(powder_next_ok);
    let neigh = powder_neigh(chunks, cur, dt, d.flip, d.draws);
    let ghost before = awakened@;
    match powder_step_with(chunks, cur, dt, neigh, d.wake_first, d.wake_swap) {
        Some(next) => {
            insert_pos(awakened, cur);
            proof {
                lemma_insert_props(before, cur);
            }
            let ghost mid = awakened@;
            insert_pos(awakened, next);
            proof {
                lemma_insert_props(mid, next);
            }
            (next, false)
        },
        None => (cur, true),
    }
}

/// Updates the powder at `pos`, with the draws `ds` for its steps: gravity
/// acts on it, then it falls one row at a time, up to its falling speed,
/// each step as `powder_step_with` takes it. Returns the positions awakened,
/// and where the powder stopped when a step found no neighbour to swap with
/// (the caller then gives it its kick).
pub fn update_powder_with(chunks: &mut UpdateChunksType, pos: IVec2, dt: u8, ds: &[PowderDraw]) -> (r: (
    Vec<IVec2>,
    Option<IVec2>,
))
    requires
        old(chunks).wf(),
        old(chunks).has(pos),
        in_center(pos),
        old(chunks).materials.0.len() > 0,
        0 <= old(chunks).world()[pos].speed.1 <= 20,
        ds@.len() >= speed_after_gravity(old(chunks).world()[pos].speed.1 as u8),
        powder_run_ok(
            powder_start(*old(chunks), pos),
            old(chunks).materials,
            old(chunks).group.center_pos,
            dt,
            ds@,
            speed_after_gravity(old(chunks).world()[pos].speed.1 as u8) as nat,
        ),
    ensures
        ({
            let e = powder_run(
                powder_start(*old(chunks), pos),
                old(chunks).materials,
                old(chunks).group.center_pos,
                dt,
                ds@,
                speed_after_gravity(old(chunks).world()[pos].speed.1 as u8) as nat,
            );
            &&& final(chunks).world() == e.0
            &&& final(chunks).dirty_render_rects@ == e.3
            &&& r.0@ == e.2
            &&& r.1 == if e.4 { Some(e.1) } else { None }
        }),
        r.0@.no_duplicates(),
        final(chunks).wf(),
        final(chunks).materials == old(chunks).materials,
        final(chunks).group.center_pos == old(chunks).group.center_pos,
        final(chunks).dirty_update_rects == old(chunks).dirty_update_rects,
{
    let ghost mats = chunks.materials;
    let ghost center = chunks.group.center_pos;
    let ghost s0 = powder_start(*chunks, pos);
    let ghost w0 = chunks.world();
    let speed = powder_gravity(chunks, pos);
    assert(chunks.world() =~= s0.0);
    let mut awakened: Vec<IVec2> = Vec::new();
    let mut cur = pos;
    let mut stopped = false;
    let mut i: u8 = 0;
    while i < speed && !stopped
        invariant
            chunks.wf(),
            chunks.materials == mats,
            mats.0.len() > 0,
            chunks.group.center_pos == center,
            chunks.dirty_update_rects == old(chunks).dirty_update_rects,
            in_center(pos),
            speed <= 21,
            i <= speed,
            ds@.len() >= speed,
            chunks.world().dom() == w0.dom(),
            w0.contains_key(pos),
            pos.y <= cur.y <= pos.y + i,
            pos.x - i <= cur.x <= pos.x + i,
            chunks.world().contains_key(cur),
            powder_run_ok(s0, mats, center, dt, ds@, speed as nat),
            (chunks.world(), cur, awakened@, chunks.dirty_render_rects@, stopped) == powder_run(
                s0,
                mats,
                center,
                dt,
                ds@,
                i as nat,
            ),
            awakened@.no_duplicates(),
        decreases speed - i,
    {
        let d = &ds[i as usize];
        proof {
            lemma_powder_run_ok(s0, mats, center, dt, ds@, (i + 1) as nat, speed as nat);
        }
        assert(chunks.has(cur));
        let (next, stop) = powder_advance(chunks, &mut awakened, cur, dt, d);
        cur = next;
        stopped = stop;
        i += 1;
    }
    proof {
        if stopped {
            lemma_powder_stopped(s0, mats, center, dt, ds@, i as nat, speed as nat);
        }
    }
    let stop = if stopped {
        Some(cur)
    } else {
        None
    };
    (awakened, stop)
}

/// Whether the group holds every position that a powder at `pos` falling
/// `n` rows may reach or wake (see `held_around`).
pub fn holds_around(chunks: &UpdateChunksType, pos: IVec2, n: u8) -> (b: bool)
    requires
        chunks.wf(),
        in_center(pos),
        n <= 21,
    ensures
        b == held_around(chunks.world(), pos, n as int),
{
    let mut y: i32 = pos.y;
    while y <= pos.y + n as i32
        invariant
            chunks.wf(),
            in_center(pos),
            n <= 21,
            pos.y <= y <= pos.y + n + 1,
            forall|p: IVec2|
                pos.y <= p.y < y && pos.x - n - 1 <= p.x <= pos.x + n + 1 ==> #[trigger] chunks.world().contains_key(p),
        decreases pos.y + n + 1 - y,
    {
        let mut x: i32 = pos.x - n as i32 - 1;
        while x <= pos.x + n as i32 + 1
            invariant
                chunks.wf(),
                in_center(pos),
                n <= 21,
                pos.y <= y <= pos.y + n,
                pos.x - n - 1 <= x <= pos.x + n + 2,
                forall|p: IVec2|
                    pos.y <= p.y < y && pos.x - n - 1 <= p.x <= pos.x + n + 1 ==> #[trigger] chunks.world().contains_key(p),
                forall|p: IVec2|
                    p.y == y && pos.x - n - 1 <= p.x < x ==> #[trigger] chunks.world().contains_key(p),
            decreases pos.x + n + 2 - x,
        {
            let p = ivec2(x, y);
            proof {
                crate::group_api::lemma_near_center_ok(*chunks, p);
            }
            if chunks.group.get_global(p).is_none() {
                assert(!chunks.world().contains_key(p));
                return false;
            }
            assert(chunks.world().contains_key(p));
            x += 1;
        }
        y += 1;
    }
    true
}

/// The update of the powder at `pos` took the group from `before` to
/// `after` and returned `r`, for the draws `ds`.
pub open spec fn powder_done(
    before: UpdateChunksType,
    after: UpdateChunksType,
    r: (Vec<IVec2>, Option<IVec2>),
    pos: IVec2,
    dt: u8,
    ds: Seq<PowderDraw>,
) -> bool {
    let n = speed_after_gravity(before.world()[pos].speed.1 as u8) as nat;
    let e = powder_run(powder_start(before, pos), before.materials, before.group.center_pos, dt, ds, n);
    &&& after.world() == e.0
    &&& after.dirty_render_rects@ == e.3
    &&& r.0@ == e.2
    &&& r.1 == if e.4 { Some(e.1) } else { None }
}

/// `ds` holds `n` draws, which wake the side neighbours as `wakes` says,
/// with numbers drawn from `0..1000`.
pub open spec fn draws_follow(ds: Seq<PowderDraw>, wakes: Seq<((bool, bool), (bool, bool))>, n: nat) -> bool {
    &&& ds.len() == n
    &&& forall|i: int|
        0 <= i < n ==> (#[trigger] ds[i]).wake_first == wakes[i].0 && ds[i].wake_swap == wakes[i].1
            && ds[i].draws[0] < 1000 && ds[i].draws[1] < 1000 && ds[i].draws[2] < 1000
}

/// Updates the powder at `pos`: `update_powder_with` on draws made here for
/// the order of the diagonals and for the water that may give way, the
/// side neighbours being woken as `wakes` says (each step's pair is drawn
/// by the caller from the powder's inertia).
pub fn update_powder(
    chunks: &mut UpdateChunksType,
    pos: IVec2,
    dt: u8,
    wakes: &[((bool, bool), (bool, bool))],
) -> (r: (Vec<IVec2>, Option<IVec2>))
    requires
        old(chunks).wf(),
        old(chunks).has(pos),
        in_center(pos),
        old(chunks).materials.0.len() > 0,
        0 <= old(chunks).world()[pos].speed.1 <= 20,
        wakes@.len() >= speed_after_gravity(old(chunks).world()[pos].speed.1 as u8),
        forall|i: int|
            0 <= i < speed_after_gravity(old(chunks).world()[pos].speed.1 as u8) && ((#[trigger] wakes@[i]).0.0
                || wakes@[i].1.0) ==> held_around(old(chunks).world(), pos, i),
    ensures
        exists|ds: Seq<PowderDraw>|
            #[trigger] powder_done(*old(chunks), *final(chunks), r, pos, dt, ds) && draws_follow(
                ds,
                wakes@,
                speed_after_gravity(old(chunks).world()[pos].speed.1 as u8) as nat,
            ),
        r.0@.no_duplicates(),
        final(chunks).wf(),
        final(chunks).materials == old(chunks).materials,
        final(chunks).group.center_pos == old(chunks).group.center_pos,
        final(chunks).dirty_update_rects == old(chunks).dirty_update_rects,
{
    let s = get_speed(chunks, pos);
    let n: u8 = if s < ATOM_TERM_VEL { s + GRAVITY } else { s };
    let mut ds: Vec<PowderDraw> = Vec::new();
    let mut i: u8 = 0;
    while i < n
        invariant
            i <= n,
            n <= 21,
            wakes@.len() >= n,
            ds@.len() == i,
            forall|k: int|
                0 <= k < i ==> (#[trigger] ds@[k]).wake_first == wakes@[k].0 && ds@[k].wake_swap == wakes@[k].1
                    && ds@[k].draws[0] < 1000 && ds@[k].draws[1] < 1000 && ds@[k].draws[2] < 1000,
        decreases n - i,
    {
        let flip = random_bool();
        let d0 = random_below(1000);
        let d1 = random_below(1000);
        let d2 = random_below(1000);
        let (wake_first, wake_swap) = wakes[i as usize];
        ds.push(PowderDraw { flip, draws: [d0, d1, d2], wake_first, wake_swap });
        i += 1;
    }
    let ghost s0 = powder_start(*chunks, pos);
    proof {
        assert(s0.0.dom() =~= chunks.world().dom());
        assert forall|k: int| 0 <= k < n && ((#[trigger] ds@[k]).wake_first.0 || ds@[k].wake_swap.0) implies held_around(s0.0, pos, k) by {
            assert(wakes@[k].0 == ds@[k].wake_first);
        }
        assert(wakes_held(s0.0, pos, ds@, n as nat));
        assert(s0.0.contains_key(pos));
        lemma_powder_shape(s0, chunks.materials, chunks.group.center_pos, dt, ds@, n as nat, n as nat);
    }
    let r = update_powder_with(chunks, pos, dt, ds.as_slice());
    proof {
        assert(draws_follow(ds@, wakes@, n as nat));
        assert(powder_done(*old(chunks), *chunks, r, pos, dt, ds@));
    }
    r
}

} // verus!
