use vstd::prelude::*;
use crate::atom::Atom;
use crate::consts::{ATOM_TERM_VEL, GRAVITY, FRAMES_SLEEP};
use crate::chunk_group::{local_to_global, global_of};
use crate::group_api::{atom_of, put, dt_updatable, dirty_msg, dirty_msg_for};
use crate::materials::{AtomState, Material, Materials};
use crate::manager_api::{DeferredDirtyRectUpdate, tdiv};
use crate::group_api::{moved_atom, inner};
use crate::group_api::{get_vel, set_vel,
    UpdateChunksType, down_neigh_with, get_material, get_speed, set_speed, side_neigh_with, swap, swapable, random_bool,
};
use crate::math::{IVec2, ivec2, abs_i32};

verus! {

/// The set `s` (a sequence without duplicates) with `p` added.
pub open spec fn inserted(s: Seq<IVec2>, p: IVec2) -> Seq<IVec2> {
    if s.contains(p) { s } else { s.push(p) }
}

/// Adds `p` to the set of positions `set` (kept without duplicates).
pub fn insert_pos(set: &mut Vec<IVec2>, p: IVec2)
    ensures
        final(set)@ == inserted(old(set)@, p),
{
    let mut j: usize = 0;
    while j < set.len()
        invariant
            j <= set@.len(),
            set@ == old(set)@,
            forall|k: int| 0 <= k < j ==> set@[k] != p,
        decreases set@.len() - j,
    {
        if set[j] == p {
            return;
        }
        j += 1;
    }
    set.push(p);
}

/// A position of the centre chunk of a group.
pub open spec fn in_center(p: IVec2) -> bool {
    64 <= p.x < 128 && 64 <= p.y < 128
}

/// Pushing a missing element keeps a sequence free of duplicates.
pub proof fn lemma_push_no_dup(s: Seq<IVec2>, p: IVec2)
    ensures
        s.no_duplicates() ==> inserted(s, p).no_duplicates(),
{
    if s.no_duplicates() && !s.contains(p) {
        let t = s.push(p);
        assert forall|i: int, j: int| 0 <= i < t.len() && 0 <= j < t.len() && i != j implies t[i] != t[j] by {
            if i == s.len() as int {
                assert(t[j] == s[j]);
            } else if j == s.len() as int {
                assert(t[i] == s[i]);
            }
        }
    }
}

/// What `insert_pos` gives: a set with `p` added.
pub proof fn lemma_insert_props(s: Seq<IVec2>, p: IVec2)
    ensures
        inserted(s, p).contains(p),
        forall|q: IVec2| s.contains(q) ==> #[trigger] inserted(s, p).contains(q),
        forall|q: IVec2| #[trigger] inserted(s, p).contains(q) ==> s.contains(q) || q == p,
        s.no_duplicates() ==> inserted(s, p).no_duplicates(),
{
    lemma_push_no_dup(s, p);
    if !s.contains(p) {
        let t = s.push(p);
        assert(t[s.len() as int] == p);
        assert forall|q: IVec2| s.contains(q) implies #[trigger] t.contains(q) by {
            let k = choose|k: int| 0 <= k < s.len() && s[k] == q;
            assert(t[k] == q);
        }
        assert forall|q: IVec2| #[trigger] t.contains(q) implies s.contains(q) || q == p by {
            let k = choose|k: int| 0 <= k < t.len() && t[k] == q;
            if k < s.len() {
                assert(s[k] == q);
            }
        }
    }
}

/// Every position in `s` is one the group holds.
pub open spec fn all_held(chunks: UpdateChunksType, s: Seq<IVec2>) -> bool {
    forall|k: int| 0 <= k < s.len() ==> chunks.world().contains_key(#[trigger] s[k])
}

/// A position that an atom of material `m` can always move into: the group
/// holds it, and it is void, or an object while `m` is a liquid.
pub open spec fn free_for(w: Map<IVec2, Atom>, materials: Materials, p: IVec2, m: Material) -> bool {
    w.contains_key(p) && {
        let t = materials.of(w[p].id);
        t.is_void_spec() || (t.is_object_spec() && m.is_liquid_spec())
    }
}

/// `p` shifted by `(dx, dy)`.
pub open spec fn shifted(p: IVec2, dx: int, dy: int) -> IVec2 {
    IVec2 { x: (p.x + dx) as i32, y: (p.y + dy) as i32 }
}

/// Where the atom at `cur` falls in one step: straight down where it can,
/// else (but for a powder at rest) diagonally down, first on the left where
/// `left_first`, else first on the right.
pub open spec fn fall_target(w: Map<IVec2, Atom>, materials: Materials, cur: IVec2, left_first: bool) -> Option<IVec2> {
    let m = materials.of(w[cur].id);
    let a: int = if left_first { -1 } else { 1 };
    if free_for(w, materials, shifted(cur, 0, 1), m) {
        Some(shifted(cur, 0, 1))
    } else if m.is_powder_spec() && !w[cur].moving {
        None
    } else if free_for(w, materials, shifted(cur, a, 1), m) {
        Some(shifted(cur, a, 1))
    } else if free_for(w, materials, shifted(cur, -a, 1), m) {
        Some(shifted(cur, -a, 1))
    } else {
        None
    }
}

/// The world once the atoms at `p1` and `p2` are swapped at frame `dt`.
pub open spec fn swapped_world(w: Map<IVec2, Atom>, materials: Materials, p1: IVec2, p2: IVec2, dt: u8) -> Map<
    IVec2,
    Atom,
> {
    w.insert(p1, moved_atom(materials.of(w[p2].id), w[p2], dt)).insert(
        p2,
        moved_atom(materials.of(w[p1].id), w[p1], dt),
    )
}

/// A moving liquid: the world, where the liquid is, the positions it went
/// through (from where it started), the render messages, and whether it
/// moved.
pub type LiquidState = (Map<IVec2, Atom>, IVec2, Seq<IVec2>, Seq<DeferredDirtyRectUpdate>, bool);

/// The liquid of `s` moved into `next`.
pub open spec fn moved_to(s: LiquidState, materials: Materials, center: IVec2, next: IVec2, dt: u8) -> LiquidState {
    (
        swapped_world(s.0, materials, s.1, next, dt),
        next,
        s.2.push(next),
        s.3.push(dirty_msg(center, s.1, false)).push(dirty_msg(center, next, false)),
        true,
    )
}

/// The liquid after `n` falling steps, the `i`-th going first left or right
/// as `choices[i]` says.
pub open spec fn liquid_fall(
    s: LiquidState,
    materials: Materials,
    center: IVec2,
    dt: u8,
    choices: Seq<bool>,
    n: nat,
) -> LiquidState
    decreases n,
{
    if n == 0 {
        s
    } else {
        let prev = liquid_fall(s, materials, center, dt, choices, (n - 1) as nat);
        match fall_target(prev.0, materials, prev.1, choices[n - 1]) {
            Some(next) => moved_to(prev, materials, center, next, dt),
            None => prev,
        }
    }
}

/// The side a liquid at `cur` flows to: one where it can go, the left one
/// first where `left_first`.
pub open spec fn side_target(w: Map<IVec2, Atom>, materials: Materials, cur: IVec2, left_first: bool) -> Option<i32> {
    let m = materials.of(w[cur].id);
    let a: i32 = if left_first { -1i32 } else { 1i32 };
    if free_for(w, materials, shifted(cur, a as int, 0), m) {
        Some(a)
    } else if free_for(w, materials, shifted(cur, -a, 0), m) {
        Some((-a) as i32)
    } else {
        None
    }
}

/// The liquid after `n` steps sideways by `side`, each taken where it can go.
pub open spec fn liquid_flow(
    s: LiquidState,
    materials: Materials,
    center: IVec2,
    dt: u8,
    side: i32,
    n: nat,
) -> LiquidState
    decreases n,
{
    if n == 0 {
        s
    } else {
        let prev = liquid_flow(s, materials, center, dt, side, (n - 1) as nat);
        let next = shifted(prev.1, side as int, 0);
        if free_for(prev.0, materials, next, materials.of(prev.0[prev.1].id)) {
            moved_to(prev, materials, center, next, dt)
        } else {
            prev
        }
    }
}

/// The atom `a` with vertical speed `s`.
pub open spec fn with_speed(a: Atom, s: int) -> Atom {
    Atom { speed: (a.speed.0, s as i8), ..a }
}

/// How many steps a falling atom takes: its speed, grown by gravity up to
/// the terminal speed.
pub open spec fn fall_speed(a: Atom) -> int {
    if a.speed.1 < ATOM_TERM_VEL { a.speed.1 + GRAVITY } else { a.speed.1 as int }
}

/// The outcome of the update of the liquid at `pos` of world `w0` with render
/// messages `r0`, given the coin flips of the falling steps and of the side
/// it flows to: it speeds up and falls that many steps; if it could not
/// fall, it stops and flows sideways up to `flow` atoms.
pub open spec fn liquid_outcome(
    w0: Map<IVec2, Atom>,
    r0: Seq<DeferredDirtyRectUpdate>,
    materials: Materials,
    center: IVec2,
    pos: IVec2,
    flow: u8,
    dt: u8,
    choices: Seq<bool>,
    left_first: bool,
) -> LiquidState {
    let sp = fall_speed(w0[pos]);
    let w1 = w0.insert(pos, with_speed(w0[pos], sp));
    let f = liquid_fall((w1, pos, seq![pos], r0, false), materials, center, dt, choices, sp as nat);
    if f.4 {
        f
    } else {
        let w2 = f.0.insert(f.1, with_speed(f.0[f.1], 0));
        let s2 = (w2, f.1, f.2, f.3, false);
        match side_target(w2, materials, f.1, left_first) {
            Some(side) => liquid_flow(s2, materials, center, dt, side, flow as nat),
            None => s2,
        }
    }
}

/// The update of the liquid at `pos` took the group from `before` to `after`
/// and awakened `awakened`, for these coin flips.
pub open spec fn liquid_done(
    before: UpdateChunksType,
    after: UpdateChunksType,
    awakened: Seq<IVec2>,
    pos: IVec2,
    flow: u8,
    dt: u8,
    choices: Seq<bool>,
    left_first: bool,
) -> bool {
    let o = liquid_outcome(
        before.world(),
        before.dirty_render_rects@,
        before.materials,
        before.group.center_pos,
        pos,
        flow,
        dt,
        choices,
        left_first,
    );
    &&& choices.len() == fall_speed(before.world()[pos])
    &&& after.world() == o.0
    &&& after.dirty_render_rects@ == o.3
    &&& awakened == if o.4 { o.2 } else { Seq::empty() }
}

proof fn lemma_fall_prefix(
    s: LiquidState,
    materials: Materials,
    center: IVec2,
    dt: u8,
    ch: Seq<bool>,
    b: bool,
    n: nat,
)
    requires
        n <= ch.len(),
    ensures
        liquid_fall(s, materials, center, dt, ch.push(b), n) == liquid_fall(s, materials, center, dt, ch, n),
    decreases n,
{
    if n > 0 {
        lemma_fall_prefix(s, materials, center, dt, ch, b, (n - 1) as nat);
        assert(ch.push(b)[n - 1] == ch[n - 1]);
    }
}

proof fn lemma_flow_stuck(
    s: LiquidState,
    materials: Materials,
    center: IVec2,
    dt: u8,
    side: i32,
    f: nat,
    n: nat,
)
    requires
        f <= n,
        ({
            let st = liquid_flow(s, materials, center, dt, side, f);
            !free_for(st.0, materials, shifted(st.1, side as int, 0), materials.of(st.0[st.1].id))
        }),
    ensures
        liquid_flow(s, materials, center, dt, side, n) == liquid_flow(s, materials, center, dt, side, f),
    decreases n - f,
{
    if n > f {
        lemma_flow_stuck(s, materials, center, dt, side, f, (n - 1) as nat);
    }
}

/// Bookkeeping of a falling step: the positions of the path go down, so the
/// new one is not among them, and the awakened set is the path.
proof fn lemma_fall_path(old_path: Seq<IVec2>, before: Seq<IVec2>, after: Seq<IVec2>, pos: IVec2, next: IVec2)
    requires
        old_path.len() >= 1,
        old_path[0] == pos,
        forall|a: int, b: int| 0 <= a < b < old_path.len() ==> (#[trigger] old_path[a]).y < (#[trigger] old_path[b]).y,
        next.y == old_path.last().y + 1,
        before == old_path || (before.len() == 0 && old_path.len() == 1),
        after == inserted(inserted(before, old_path.last()), next),
    ensures
        after == old_path.push(next),
        forall|a: int, b: int|
            0 <= a < b < old_path.push(next).len() ==> (#[trigger] old_path.push(next)[a]).y < (#[trigger] old_path.push(
                next,
            )[b]).y,
{
    let path = old_path.push(next);
    assert(!old_path.contains(next)) by {
        if old_path.contains(next) {
            let a = choose|a: int| 0 <= a < old_path.len() && old_path[a] == next;
            if a < old_path.len() - 1 {
                assert(old_path[a].y < old_path[old_path.len() - 1].y);
            }
        }
    }
    if before.len() == 0 {
        assert(old_path =~= seq![pos]);
        assert(inserted(before, old_path.last()) =~= seq![pos]);
        assert(after =~= path);
    } else {
        assert(old_path[old_path.len() - 1] == old_path.last());
        assert(old_path.contains(old_path.last()));
        assert(after =~= path);
    }
    assert forall|a: int, b: int| 0 <= a < b < path.len() implies (#[trigger] path[a]).y < (#[trigger] path[b]).y by {
        if b == path.len() - 1 && a < old_path.len() - 1 {
            assert(old_path[a].y < old_path[old_path.len() - 1].y);
        }
    }
}

/// The position `j` atoms from `pos` towards `side`.
pub open spec fn along(pos: IVec2, side: i32, j: int) -> IVec2 {
    shifted(pos, if side == 1 { j } else { -j }, 0)
}

/// Bookkeeping of a step sideways: the path goes along the row, so the new
/// position is not on it, and the awakened set is the path.
proof fn lemma_flow_path(old_path: Seq<IVec2>, before: Seq<IVec2>, after: Seq<IVec2>, pos: IVec2, side: i32, fl: int)
    requires
        side == -1 || side == 1,
        0 <= fl <= 32,
        64 <= pos.x < 128,
        old_path.len() == fl + 1,
        forall|j: int| 0 <= j < old_path.len() ==> #[trigger] old_path[j] == along(pos, side, j),
        before == if fl > 0 { old_path } else { Seq::empty() },
        after == inserted(inserted(before, old_path[fl]), along(pos, side, fl + 1)),
    ensures
        after == old_path.push(along(pos, side, fl + 1)),
        forall|j: int|
            0 <= j < old_path.len() + 1 ==> #[trigger] old_path.push(
                along(pos, side, fl + 1),
            )[j] == along(pos, side, j),
{
    let next = along(pos, side, fl + 1);
    let path = old_path.push(next);
    assert(!old_path.contains(next)) by {
        if old_path.contains(next) {
            let a = choose|a: int| 0 <= a < old_path.len() && old_path[a] == next;
            assert(old_path[a] == along(pos, side, a));
        }
    }
    if fl == 0 {
        assert(old_path =~= seq![pos]) by {
            assert(old_path[0] == shifted(pos, 0, 0));
        }
        assert(after =~= path);
    } else {
        assert(old_path.contains(old_path[fl]));
        assert(after =~= path);
    }
}

/// One falling step of the atom at `cur`: where it goes (it is swapped
/// there), given the coin flip that orders the diagonals.
fn fall_step(chunks: &mut UpdateChunksType, cur: IVec2, dt: u8, left_first: bool) -> (r: (Option<IVec2>, Ghost<bool>))
    requires
        old(chunks).wf(),
        old(chunks).has(cur),
        inner(cur),
        old(chunks).materials.0.len() > 0,
    ensures
        r.1@ == left_first,
        r.0 == fall_target(old(chunks).world(), old(chunks).materials, cur, r.1@),
        final(chunks).wf(),
        final(chunks).materials == old(chunks).materials,
        final(chunks).group.center_pos == old(chunks).group.center_pos,
        final(chunks).dirty_update_rects == old(chunks).dirty_update_rects,
        match r.0 {
            Some(next) => {
                &&& final(chunks).world() == swapped_world(old(chunks).world(), old(chunks).materials, cur, next, dt)
                &&& final(chunks).dirty_render_rects@ == old(chunks).dirty_render_rects@.push(
                    dirty_msg(old(chunks).group.center_pos, cur, false),
                ).push(dirty_msg(old(chunks).group.center_pos, next, false))
                &&& next.y == cur.y + 1
                &&& cur.x - 1 <= next.x <= cur.x + 1
                &&& old(chunks).world().contains_key(next)
            },
            None => *final(chunks) == *old(chunks),
        },
{
    let neigh = down_neigh_with(chunks, cur, &[], dt, !left_first);
    let ghost lf = left_first;
    let k: usize = if neigh[0].0 {
        0
    } else if neigh[1].0 {
        1
    } else if neigh[2].0 {
        2
    } else {
        3
    };
    if k < 3 {
        let n = neigh[k];
        let next = ivec2(cur.x + n.1.x, cur.y + n.1.y);
        assert(fall_target(chunks.world(), chunks.materials, cur, lf) == Some(next));
        assert(chunks.world().contains_key(next));
        swap(chunks, cur, next, dt);
        (Some(next), Ghost(lf))
    } else {
        (None, Ghost(lf))
    }
}

/// One step sideways by `side` of the atom at `cur`, taken where it can go
/// (the atoms are then swapped); tells whether it moved.
fn flow_step(chunks: &mut UpdateChunksType, cur: IVec2, side: i32, dt: u8) -> (moved: bool)
    requires
        old(chunks).wf(),
        old(chunks).has(cur),
        side == -1 || side == 1,
        32 <= cur.x + side < 160,
        32 <= cur.y < 160,
        old(chunks).materials.0.len() > 0,
    ensures
        moved == free_for(
            old(chunks).world(),
            old(chunks).materials,
            shifted(cur, side as int, 0),
            old(chunks).materials.of(old(chunks).world()[cur].id),
        ),
        final(chunks).wf(),
        final(chunks).materials == old(chunks).materials,
        final(chunks).group.center_pos == old(chunks).group.center_pos,
        final(chunks).dirty_update_rects == old(chunks).dirty_update_rects,
        moved ==> {
            &&& final(chunks).world() == swapped_world(
                old(chunks).world(),
                old(chunks).materials,
                cur,
                shifted(cur, side as int, 0),
                dt,
            )
            &&& final(chunks).dirty_render_rects@ == old(chunks).dirty_render_rects@.push(
                dirty_msg(old(chunks).group.center_pos, cur, false),
            ).push(dirty_msg(old(chunks).group.center_pos, shifted(cur, side as int, 0), false))
        },
        !moved ==> *final(chunks) == *old(chunks),
{
    let material = get_material(chunks, cur);
    let next = ivec2(cur.x + side, cur.y);
    proof {
        crate::group_api::lemma_near_center_ok(*chunks, next);
    }
    if !swapable(chunks, next, &[], material, dt) {
        return false;
    }
    assert(chunks.world().contains_key(next));
    swap(chunks, cur, next, dt);
    true
}

/// The falling part of the update of a liquid at `pos`, whose speed is
/// already `speed`: returns where it ends, the positions awakened, whether
/// it moved, and (as ghosts) the coin flips and the path.
fn liquid_fall_phase(chunks: &mut UpdateChunksType, pos: IVec2, speed: u8, dt: u8, choices: &[bool]) -> (r: (
    IVec2,
    Vec<IVec2>,
    bool,
    Ghost<Seq<bool>>,
    Ghost<Seq<IVec2>>,
))
    requires
        old(chunks).wf(),
        old(chunks).has(pos),
        in_center(pos),
        speed <= 21,
        choices@.len() >= speed,
        old(chunks).materials.0.len() > 0,
    ensures
        final(chunks).wf(),
        final(chunks).materials == old(chunks).materials,
        final(chunks).group.center_pos == old(chunks).group.center_pos,
        final(chunks).dirty_update_rects == old(chunks).dirty_update_rects,
        r.3@ == choices@.subrange(0, speed as int),
        (final(chunks).world(), r.0, r.4@, final(chunks).dirty_render_rects@, r.2) == liquid_fall(
            (old(chunks).world(), pos, seq![pos], old(chunks).dirty_render_rects@, false),
            old(chunks).materials,
            old(chunks).group.center_pos,
            dt,
            r.3@,
            speed as nat,
        ),
        final(chunks).world().dom() == old(chunks).world().dom(),
        r.1@ == if r.2 { r.4@ } else { Seq::empty() },
        !r.2 ==> r.0 == pos && r.4@ == seq![pos],
        r.4@.no_duplicates(),
        all_held(*final(chunks), r.4@),
{
    let ghost s0: LiquidState = (chunks.world(), pos, seq![pos], chunks.dirty_render_rects@, false);
    let ghost w0 = chunks.world();
    let ghost center = chunks.group.center_pos;
    let ghost mats = chunks.materials;
    let ghost mut ch: Seq<bool> = Seq::empty();
    let ghost mut path: Seq<IVec2> = seq![pos];
    let mut awakened: Vec<IVec2> = Vec::new();
    let mut cur_pos = pos;
    let mut swapped = false;
    let mut step: u8 = 0;
    while step < speed
        invariant
            chunks.wf(),
            chunks.materials == mats,
            mats == old(chunks).materials,
            mats.0.len() > 0,
            chunks.group.center_pos == center,
            center == old(chunks).group.center_pos,
            chunks.dirty_update_rects == old(chunks).dirty_update_rects,
            s0 == (old(chunks).world(), pos, seq![pos], old(chunks).dirty_render_rects@, false),
            in_center(pos),
            speed <= 21,
            step <= speed,
            choices@.len() >= speed,
            ch == choices@.subrange(0, step as int),
            (chunks.world(), cur_pos, path, chunks.dirty_render_rects@, swapped) == liquid_fall(
                s0,
                mats,
                center,
                dt,
                ch,
                step as nat,
            ),
            pos.y <= cur_pos.y <= pos.y + step,
            pos.x - step <= cur_pos.x <= pos.x + step,
            chunks.world().dom() == w0.dom(),
            path.len() >= 1,
            path[0] == pos,
            path.last() == cur_pos,
            forall|a: int, b: int| 0 <= a < b < path.len() ==> (#[trigger] path[a]).y < (#[trigger] path[b]).y,
            all_held(*chunks, path),
            awakened@ == if swapped { path } else { Seq::empty() },
            !swapped ==> path.len() == 1,
        decreases speed - step,
    {
        assert(chunks.world().contains_key(path.last()));
        assert(chunks.has(cur_pos));
        let (target, Ghost(lf)) = fall_step(chunks, cur_pos, dt, choices[step as usize]);
        if let Some(next) = target {
            let ghost before = awakened@;
            insert_pos(&mut awakened, cur_pos);
            cur_pos = next;
            insert_pos(&mut awakened, cur_pos);
            proof {
                let old_path = path;
                path = path.push(next);
                lemma_fall_path(old_path, before, awakened@, pos, next);
                assert forall|j: int| 0 <= j < path.len() implies chunks.world().contains_key(#[trigger] path[j]) by {
                    if j < old_path.len() {
                        assert(path[j] == old_path[j]);
                    }
                }
            }
            swapped = true;
        }
        proof {
            lemma_fall_prefix(s0, mats, center, dt, ch, lf, step as nat);
            ch = ch.push(lf);
            assert(ch =~= choices@.subrange(0, step + 1));
        }
        step += 1;
    }
    proof {
        assert forall|a: int, b: int| 0 <= a < path.len() && 0 <= b < path.len() && a != b implies path[a] != path[b] by {
            if a < b {
                assert(path[a].y < path[b].y);
            } else {
                assert(path[b].y < path[a].y);
            }
        }
        if !swapped {
            assert(path =~= seq![pos]);
        }
    }
    (cur_pos, awakened, swapped, Ghost(ch), Ghost(path))
}

/// The liquid at `pos` flows sideways by `side`, up to `flow` atoms, each
/// step taken where it can go. Returns the positions awakened, and (as
/// ghosts) the path and whether it moved.
#[verifier::spinoff_prover]
#[verifier::rlimit(40)]
fn flow_along(chunks: &mut UpdateChunksType, pos: IVec2, side: i32, flow: u8, dt: u8) -> (r: (
    Vec<IVec2>,
    Ghost<Seq<IVec2>>,
    Ghost<bool>,
))
    requires
        old(chunks).wf(),
        old(chunks).has(pos),
        in_center(pos),
        side == -1 || side == 1,
        flow <= 32,
        old(chunks).materials.0.len() > 0,
    ensures
        final(chunks).wf(),
        final(chunks).materials == old(chunks).materials,
        final(chunks).group.center_pos == old(chunks).group.center_pos,
        final(chunks).dirty_update_rects == old(chunks).dirty_update_rects,
        (final(chunks).world(), r.1@.last(), r.1@, final(chunks).dirty_render_rects@, r.2@) == liquid_flow(
            (old(chunks).world(), pos, seq![pos], old(chunks).dirty_render_rects@, false),
            old(chunks).materials,
            old(chunks).group.center_pos,
            dt,
            side,
            flow as nat,
        ),
        r.0@ == if r.2@ { r.1@ } else { Seq::empty() },
        r.1@.len() >= 1,
        r.1@.no_duplicates(),
        all_held(*final(chunks), r.1@),
{
    let ghost mats = chunks.materials;
    let ghost center = chunks.group.center_pos;
    let ghost w0 = chunks.world();
    let ghost s2: LiquidState = (chunks.world(), pos, seq![pos], chunks.dirty_render_rects@, false);
    let ghost mut path: Seq<IVec2> = seq![pos];
    let ghost mut moved = false;
    let mut awakened: Vec<IVec2> = Vec::new();
    let mut cur_pos = pos;
    let mut fl: u8 = 0;
    while fl < flow
        invariant
            chunks.wf(),
            chunks.materials == mats,
            mats.0.len() > 0,
            chunks.group.center_pos == center,
            chunks.dirty_update_rects == old(chunks).dirty_update_rects,
            in_center(pos),
            side == -1 || side == 1,
            flow <= 32,
            fl <= flow,
            cur_pos.y == pos.y,
            side == 1 ==> cur_pos.x == pos.x + fl,
            side == -1 ==> cur_pos.x == pos.x - fl,
            chunks.world().dom() == w0.dom(),
            (chunks.world(), cur_pos, path, chunks.dirty_render_rects@, moved) == liquid_flow(
                s2,
                mats,
                center,
                dt,
                side,
                fl as nat,
            ),
            path.len() == fl + 1,
            forall|j: int| 0 <= j < path.len() ==> #[trigger] path[j] == along(pos, side, j),
            all_held(*chunks, path),
            moved == (fl > 0),
            awakened@ == if moved { path } else { Seq::empty() },
        ensures
            (chunks.world(), cur_pos, path, chunks.dirty_render_rects@, moved) == liquid_flow(
                s2,
                mats,
                center,
                dt,
                side,
                flow as nat,
            ),
            chunks.wf(),
            chunks.materials == mats,
            chunks.group.center_pos == center,
            chunks.dirty_update_rects == old(chunks).dirty_update_rects,
            path.len() >= 1,
            path.last() == cur_pos,
            forall|j: int| 0 <= j < path.len() ==> #[trigger] path[j] == along(pos, side, j),
            all_held(*chunks, path),
            awakened@ == if moved { path } else { Seq::empty() },
        decreases flow - fl,
    {
        assert(chunks.world().contains_key(path[fl as int]));
        assert(chunks.has(cur_pos));
        if !flow_step(chunks, cur_pos, side, dt) {
            proof {
                lemma_flow_stuck(s2, mats, center, dt, side, fl as nat, flow as nat);
                assert(path.last() == path[fl as int]);
            }
            break;
        }
        let next = ivec2(cur_pos.x + side, cur_pos.y);
        let ghost before = awakened@;
        let ghost old_path = path;
        insert_pos(&mut awakened, cur_pos);
        cur_pos = next;
        insert_pos(&mut awakened, cur_pos);
        proof {
            path = path.push(next);
            lemma_flow_path(old_path, before, awakened@, pos, side, fl as int);
            assert forall|j: int| 0 <= j < path.len() implies chunks.world().contains_key(#[trigger] path[j]) by {
                if j < old_path.len() {
                    assert(path[j] == old_path[j]);
                }
            }
            moved = true;
        }
        fl += 1;
    }
    proof {
        assert forall|a: int, b: int| 0 <= a < path.len() && 0 <= b < path.len() && a != b implies path[a] != path[b] by {
            assert(path[a] == along(pos, side, a));
            assert(path[b] == along(pos, side, b));
        }
    }
    (awakened, Ghost(path), Ghost(moved))
}

/// The flowing part of the update of a liquid at `pos` that could not
/// fall: it stops, and flows sideways up to `flow` atoms. Returns the
/// positions awakened, and (as a ghost) the coin flip of the side.
fn liquid_flow_phase(chunks: &mut UpdateChunksType, pos: IVec2, flow: u8, dt: u8, left_first: bool) -> (r: (Vec<IVec2>, Ghost<bool>))
    requires
        old(chunks).wf(),
        old(chunks).has(pos),
        in_center(pos),
        flow <= 32,
        old(chunks).materials.0.len() > 0,
    ensures
        final(chunks).wf(),
        final(chunks).materials == old(chunks).materials,
        final(chunks).group.center_pos == old(chunks).group.center_pos,
        final(chunks).dirty_update_rects == old(chunks).dirty_update_rects,
        r.1@ == left_first,
        ({
            let w2 = old(chunks).world().insert(pos, with_speed(old(chunks).world()[pos], 0));
            let s2: LiquidState = (w2, pos, seq![pos], old(chunks).dirty_render_rects@, false);
            let o = match side_target(w2, old(chunks).materials, pos, r.1@) {
                Some(side) => liquid_flow(s2, old(chunks).materials, old(chunks).group.center_pos, dt, side, flow as nat),
                None => s2,
            };
            &&& final(chunks).world() == o.0
            &&& final(chunks).dirty_render_rects@ == o.3
            &&& r.0@ == if o.4 { o.2 } else { Seq::empty() }
        }),
        r.0@.no_duplicates(),
        all_held(*final(chunks), r.0@),
{
    let ghost mats = chunks.materials;
    let ghost w0 = chunks.world();
    set_speed(chunks, pos, 0);
    let ghost w2 = chunks.world();
    assert(w2 == w0.insert(pos, with_speed(w0[pos], 0)));
    assert(chunks.world().dom() =~= w0.dom());
    assert(chunks.has(pos));
    let neigh = side_neigh_with(chunks, pos, &[], dt, !left_first);
    let ghost lf2 = left_first;
    let side: Option<i32> = if neigh[0].0 {
        Some(neigh[0].1.x)
    } else if neigh[1].0 {
        Some(neigh[1].1.x)
    } else {
        None
    };
    assert(side == side_target(w2, mats, pos, lf2));
    if let Some(side) = side {
        let (awakened, Ghost(path), Ghost(moved)) = flow_along(chunks, pos, side, flow, dt);
        proof {
            if moved {
                assert(awakened@ == path);
            }
        }
        (awakened, Ghost(lf2))
    } else {
        (Vec::new(), Ghost(lf2))
    }
}

/// Updates the liquid at `pos` and returns the atoms awakened, where
/// `choices[i]` tells whether the `i`-th falling step tries the left
/// diagonal first, and `left_first` whether it flows to the left first.
/// The liquid speeds up (to its terminal velocity) and falls that many
/// steps, straight down or diagonally; if it could not fall, it stops and
/// flows sideways up to `flow` atoms.
pub fn update_liquid_with(
    chunks: &mut UpdateChunksType,
    pos: IVec2,
    flow: u8,
    dt: u8,
    choices: &[bool],
    left_first: bool,
) -> (awakened: Vec<IVec2>)
    requires
        old(chunks).wf(),
        old(chunks).has(pos),
        in_center(pos),
        0 <= old(chunks).world()[pos].speed.1 <= 20,
        flow <= 32,
        choices@.len() >= fall_speed(old(chunks).world()[pos]),
    ensures
        final(chunks).wf(),
        final(chunks).materials == old(chunks).materials,
        final(chunks).group.center_pos == old(chunks).group.center_pos,
        final(chunks).dirty_update_rects == old(chunks).dirty_update_rects,
        liquid_done(
            *old(chunks),
            *final(chunks),
            awakened@,
            pos,
            flow,
            dt,
            choices@.subrange(0, fall_speed(old(chunks).world()[pos])),
            left_first,
        ),
        awakened@.no_duplicates(),
        all_held(*final(chunks), awakened@),
{
    let ghost w0 = chunks.world();
    proof {
        crate::group_api::lemma_id_ok(*chunks, pos);
    }

    // Get fall speed
    let mut speed = get_speed(chunks, pos);
    if speed < ATOM_TERM_VEL {
        speed += GRAVITY;
        set_speed(chunks, pos, speed);
    }
    proof {
        assert(speed == fall_speed(w0[pos]));
        assert(chunks.world() =~= w0.insert(pos, with_speed(w0[pos], speed as int)));
    }
    assert(chunks.has(pos));
    let (cur_pos, awakened, swapped, Ghost(ch), Ghost(path)) = liquid_fall_phase(chunks, pos, speed, dt, choices);
    if swapped {
        assert(liquid_done(*old(chunks), *chunks, awakened@, pos, flow, dt, ch, left_first));
        awakened
    } else {
        assert(chunks.has(pos));
        let (aw, Ghost(lf)) = liquid_flow_phase(chunks, pos, flow, dt, left_first);
        assert(liquid_done(*old(chunks), *chunks, aw@, pos, flow, dt, ch, lf));
        aw
    }
}

/// Updates liquid and returns atoms awakened: `update_liquid_with` on coin
/// flips, one for each falling step and one for the side it flows to.
pub fn update_liquid(chunks: &mut UpdateChunksType, pos: IVec2, flow: u8, dt: u8) -> (awakened: Vec<IVec2>)
    requires
        old(chunks).wf(),
        old(chunks).has(pos),
        in_center(pos),
        0 <= old(chunks).world()[pos].speed.1 <= 20,
        flow <= 32,
    ensures
        final(chunks).wf(),
        final(chunks).materials == old(chunks).materials,
        final(chunks).group.center_pos == old(chunks).group.center_pos,
        final(chunks).dirty_update_rects == old(chunks).dirty_update_rects,
        exists|choices: Seq<bool>, left_first: bool|
            #[trigger] liquid_done(*old(chunks), *final(chunks), awakened@, pos, flow, dt, choices, left_first),
        awakened@.no_duplicates(),
        all_held(*final(chunks), awakened@),
{
    let speed = get_speed(chunks, pos);
    let steps: u8 = if speed < ATOM_TERM_VEL { speed + GRAVITY } else { speed };
    let mut choices: Vec<bool> = Vec::new();
    let mut i: u8 = 0;
    while i < steps
        invariant
            i <= steps,
            choices@.len() == i,
        decreases steps - i,
    {
        choices.push(random_bool());
        i += 1;
    }
    let left_first = random_bool();
    update_liquid_with(chunks, pos, flow, dt, choices.as_slice(), left_first)
}

} // verus!

verus! {

/// What the update of one atom starts from.
#[derive(Clone, Copy, Debug)]
pub struct AtomStep {
    pub id: u8,
    pub speed: (i8, i8),
    pub state: AtomState,
    pub awake_self: bool,
}

/// How an atom is updated.
#[derive(Clone, Copy, Debug, PartialEq, Eq, Structural)]
pub enum UpdateKind {
    /// Falls as a powder.
    Powder,
    /// Falls and flows as a liquid.
    Liquid,
    /// Does not move by itself.
    Still,
    /// Moves along its velocity.
    Vector,
}

impl AtomStep {
    /// An atom with a horizontal speed, or going up, moves along its velocity;
    /// the others move by the rules of their state.
    pub fn kind(&self) -> (k: UpdateKind)
        ensures
            k == if self.speed.0 == 0 && self.speed.1 >= 0 {
                match self.state {
                    AtomState::Powder => UpdateKind::Powder,
                    AtomState::Liquid => UpdateKind::Liquid,
                    _ => UpdateKind::Still,
                }
            } else {
                UpdateKind::Vector
            },
    {
        if self.speed.0 == 0 && self.speed.1 >= 0 {
            match self.state {
                AtomState::Powder => UpdateKind::Powder,
                AtomState::Liquid => UpdateKind::Liquid,
                _ => UpdateKind::Still,
            }
        } else {
            UpdateKind::Vector
        }
    }
}

/// What `begin_atom_update` does to the atom `a` of material `m`: an atom
/// that is neither void nor solid and has been idle for fewer than
/// `FRAMES_SLEEP` frames counts one more idle frame, and keeps itself awake.
pub open spec fn idle_tick(a: Atom, m: crate::materials::Material) -> (Atom, bool) {
    if a.f_idle < FRAMES_SLEEP && !m.is_void_spec() && !m.is_solid_spec() {
        (Atom { f_idle: (a.f_idle + 1) as u8, ..a }, true)
    } else {
        (a, false)
    }
}

/// Starts the update of the atom at `(x, y)` of the centre chunk: `None` if it
/// may not be updated at `dt` (it already was, and is not void).
pub fn begin_atom_update(chunks: &mut UpdateChunksType, x: i32, y: i32, dt: u8) -> (step: Option<AtomStep>)
    requires
        old(chunks).wf(),
        0 <= x < 64,
        0 <= y < 64,
    ensures
        final(chunks).wf(),
        final(chunks).materials == old(chunks).materials,
        final(chunks).group.center_pos == old(chunks).group.center_pos,
        final(chunks).dirty_update_rects == old(chunks).dirty_update_rects,
        final(chunks).dirty_render_rects == old(chunks).dirty_render_rects,
        ({
            let pos = IVec2 { x: (x + 64) as i32, y: (y + 64) as i32 };
            let a = old(chunks).world()[pos];
            let m = old(chunks).materials.of(a.id);
            &&& old(chunks).world().contains_key(pos)
            &&& step is None <==> (a.updated_at == dt && !m.is_void_spec())
            &&& step is None ==> final(chunks).world() == old(chunks).world()
            &&& step is Some ==> {
                &&& final(chunks).world() == old(chunks).world().insert(pos, idle_tick(a, m).0)
                &&& step.unwrap() == (AtomStep {
                    id: a.id,
                    speed: a.speed,
                    state: m.default_state,
                    awake_self: idle_tick(a, m).1,
                })
            }
        }),
{
    let local_pos = (ivec2(x, y), 4);
    let pos = local_to_global(local_pos);
    proof {
        crate::group_api::lemma_near_center_ok(*chunks, pos);
        assert(chunks.has(pos)) by {
            assert(chunks.group.region(4) is Some);
        }
    }

    if !dt_updatable(chunks, pos, dt) {
        return None;
    }

    let mut awake_self = false;
    let mut atom = atom_of(chunks, pos);
    proof {
        crate::group_api::lemma_id_ok(*chunks, pos);
    }
    let id = atom.id;
    let speed = atom.speed;
    let material = *chunks.materials.get_from_id(id);
    let state = material.default_state;

    if atom.f_idle < FRAMES_SLEEP && !material.is_void() && !material.is_solid() {
        atom.f_idle += 1;
        awake_self = true;
        put(chunks, pos, atom);
    } else {
        proof {
            assert(chunks.world().insert(pos, atom) =~= chunks.world());
        }
    }

    Some(AtomStep { id, speed, state, awake_self })
}

/// The awakened positions once the update of the atom at `pos` is finished.
pub open spec fn finished_awakened(aw: Seq<IVec2>, pos: IVec2, vector: bool, awake_self: bool) -> Seq<IVec2> {
    if aw.contains(pos) {
        aw
    } else if vector || awake_self {
        inserted(aw, pos)
    } else {
        aw
    }
}

/// Whether the atom at `pos` only keeps itself awake (its neighbours need not
/// be woken up).
pub open spec fn only_self_awake(aw: Seq<IVec2>, pos: IVec2, vector: bool, awake_self: bool) -> bool {
    !aw.contains(pos) && !vector && awake_self
}

/// What the finishing of the update does to the atom at `pos`: an atom that
/// moved is woken up and marked moving; one that moves by velocity is woken
/// up and not moving; one that keeps itself awake is not moving.
pub open spec fn finished_atom(a: Atom, aw: Seq<IVec2>, pos: IVec2, vector: bool, awake_self: bool) -> Atom {
    if aw.contains(pos) {
        Atom { f_idle: 0, moving: true, ..a }
    } else if vector {
        Atom { f_idle: 0, moving: false, ..a }
    } else if awake_self {
        Atom { moving: false, ..a }
    } else {
        a
    }
}

/// Finishes the update of the atom at `pos` (of the centre chunk), given the
/// positions the update awakened: updates its idle count and moving flag,
/// and asks for the dirty rectangles of the awakened positions (with their
/// surrounding, but for an atom that only keeps itself awake).
pub fn finish_atom_update(
    chunks: &mut UpdateChunksType,
    pos: IVec2,
    awakened: Vec<IVec2>,
    vector: bool,
    awake_self: bool,
)
    requires
        old(chunks).wf(),
        old(chunks).has(pos),
        all_held(*old(chunks), awakened@),
        awakened@.no_duplicates(),
    ensures
        final(chunks).wf(),
        final(chunks).materials == old(chunks).materials,
        final(chunks).group.center_pos == old(chunks).group.center_pos,
        final(chunks).dirty_render_rects == old(chunks).dirty_render_rects,
        final(chunks).world() == old(chunks).world().insert(
            pos,
            finished_atom(old(chunks).world()[pos], awakened@, pos, vector, awake_self),
        ),
        ({
            let fa = finished_awakened(awakened@, pos, vector, awake_self);
            final(chunks).dirty_update_rects@ == old(chunks).dirty_update_rects@ + Seq::new(
                fa.len(),
                |k: int| dirty_msg(
                    old(chunks).group.center_pos,
                    fa[k],
                    !(only_self_awake(awakened@, pos, vector, awake_self) && fa[k] == pos),
                ),
            )
        }),
{
    let ghost aw0 = awakened@;
    let ghost u0 = chunks.dirty_update_rects@;
    let mut awakened = awakened;
    let mut atom = atom_of(chunks, pos);
    proof {
        crate::group_api::lemma_id_ok(*chunks, pos);
    }
    let mut self_awakened = false;
    let contains = vec_contains(&awakened, pos);
    if contains {
        atom.f_idle = 0;
        atom.moving = true;
    } else if vector {
        atom.f_idle = 0;
        insert_pos(&mut awakened, pos);
        atom.moving = false;
    } else if awake_self {
        insert_pos(&mut awakened, pos);
        self_awakened = true;
        atom.moving = false;
    }
    put(chunks, pos, atom);
    proof {
        lemma_insert_props(aw0, pos);
        assert(awakened@ == finished_awakened(aw0, pos, vector, awake_self));
        assert(self_awakened == only_self_awake(aw0, pos, vector, awake_self));
    }

    let ghost fa = awakened@;
    let ghost w1 = chunks.world();
    let mut k: usize = 0;
    while k < awakened.len()
        invariant
            k <= awakened@.len(),
            chunks.world() == w1,
            fa == awakened@,
            chunks.wf(),
            chunks.materials == old(chunks).materials,
            chunks.group.center_pos == old(chunks).group.center_pos,
            chunks.dirty_render_rects == old(chunks).dirty_render_rects,
            forall|j: int| 0 <= j < fa.len() ==> chunks.world().contains_key(#[trigger] fa[j]),
            chunks.dirty_update_rects@ == u0 + Seq::new(
                k as nat,
                |j: int| dirty_msg(old(chunks).group.center_pos, fa[j], !(self_awakened && fa[j] == pos)),
            ),
        decreases awakened@.len() - k,
    {
        let awoke = awakened[k];
        assert(chunks.world().contains_key(awoke));
        let msg = dirty_msg_for(chunks, awoke, !(self_awakened && awoke == pos));
        chunks.dirty_update_rects.push(msg);
        proof {
            assert(chunks.dirty_update_rects@ =~= u0 + Seq::new(
                (k + 1) as nat,
                |j: int| dirty_msg(old(chunks).group.center_pos, fa[j], !(self_awakened && fa[j] == pos)),
            ));
        }
        k += 1;
    }
}

/// Whether `set` holds `p`.
pub fn vec_contains(set: &Vec<IVec2>, p: IVec2) -> (b: bool)
    ensures
        b == set@.contains(p),
{
    let mut j: usize = 0;
    while j < set.len()
        invariant
            j <= set@.len(),
            forall|k: int| 0 <= k < j ==> set@[k] != p,
        decreases set@.len() - j,
    {
        if set[j] == p {
            return true;
        }
        j += 1;
    }
    false
}

} // verus!

verus! {

/// The atom `a` with velocity `v`, each coordinate truncated to an `i8`.
pub open spec fn with_vel(a: Atom, v: IVec2) -> Atom {
    Atom { speed: (v.x as i8, v.y as i8), ..a }
}

/// The velocity of an atom after gravity: one more downwards, up to the
/// terminal velocity.
pub open spec fn gravity_vel(a: Atom) -> IVec2 {
    IVec2 {
        x: a.speed.0 as i32,
        y: if a.speed.1 < ATOM_TERM_VEL { (a.speed.1 + GRAVITY) as i32 } else { a.speed.1 as i32 },
    }
}

/// Adds gravity to the velocity of the atom at `pos`, and returns it.
pub fn atom_gravity(chunks: &mut UpdateChunksType, pos: IVec2) -> (vel: IVec2)
    requires
        old(chunks).wf(),
        old(chunks).has(pos),
    ensures
        vel == gravity_vel(old(chunks).world()[pos]),
        final(chunks).world() == old(chunks).world().insert(pos, with_vel(old(chunks).world()[pos], vel)),
        final(chunks).wf(),
        final(chunks).materials == old(chunks).materials,
        final(chunks).group.center_pos == old(chunks).group.center_pos,
        final(chunks).dirty_update_rects == old(chunks).dirty_update_rects,
        final(chunks).dirty_render_rects == old(chunks).dirty_render_rects,
{
    let mut vel = get_vel(chunks, pos);
    if vel.y < ATOM_TERM_VEL as i32 {
        vel.y = vel.y + GRAVITY as i32;
        set_vel(chunks, pos, vel);
    } else {
        proof {
            let a = chunks.world()[pos];
            assert(with_vel(a, vel) == a);
            assert(chunks.world().insert(pos, with_vel(a, vel)) =~= chunks.world());
        }
    }
    vel
}

/// An atom moving by velocity: the world, where the atom is, the positions
/// it awakened, the render messages, and whether it stopped.
pub type VectorState = (Map<IVec2, Atom>, IVec2, Seq<IVec2>, Seq<DeferredDirtyRectUpdate>, bool);

/// `v` scaled by `num / 5`, each coordinate truncated towards zero.
pub open spec fn scaled_fifths(v: IVec2, num: int) -> IVec2 {
    IVec2 { x: tdiv5(v.x * num) as i32, y: tdiv5(v.y * num) as i32 }
}

/// `a / 5`, truncated towards zero.
pub open spec fn tdiv5(a: int) -> int {
    if a >= 0 { a / 5 } else { -((-a) / 5) }
}

/// `|v|` for a coordinate.
pub open spec fn abs_int(v: int) -> int {
    if v < 0 { -v } else { v }
}

/// One position `p` of the line of the velocity `vel` of the moving atom: it
/// goes there where it can; where `p` and the atom are both liquids, it
/// gives four fifths of its velocity to `p`, keeps a fifth, and stops; where
/// it hits something else, it bounces back (`bounce`) if fast on both axes,
/// stops if it cannot fall, and stops moving along the line.
pub open spec fn vector_step(
    s: VectorState,
    materials: Materials,
    center: IVec2,
    p: IVec2,
    vel: IVec2,
    bounce: IVec2,
    dt: u8,
) -> VectorState {
    if s.4 {
        s
    } else {
        let w = s.0;
        let cur = s.1;
        let aw = inserted(s.2, cur);
        let m = materials.of(w[cur].id);
        if free_for(w, materials, p, m) {
            (
                swapped_world(w, materials, cur, p, dt),
                p,
                inserted(aw, p),
                s.3.push(dirty_msg(center, cur, false)).push(dirty_msg(center, p, false)),
                false,
            )
        } else if materials.of(w[p].id).is_liquid_spec() && m.is_liquid_spec() {
            let w1 = w.insert(p, with_vel(w[p], scaled_fifths(vel, 4)));
            (w1.insert(cur, with_vel(w1[cur], scaled_fifths(vel, 1))), cur, inserted(aw, p), s.3, true)
        } else {
            let w1 = if abs_int(vel.x as int) > 4 && abs_int(vel.y as int) > 4 {
                w.insert(cur, with_vel(w[cur], bounce))
            } else if !free_for(w, materials, shifted(cur, 0, 1), m) {
                w.insert(cur, with_vel(w[cur], IVec2 { x: 0, y: 0 }))
            } else {
                w
            };
            (w1, cur, aw, s.3, true)
        }
    }
}

/// The moving atom after the first `n` positions of its line.
pub open spec fn vector_run(
    s: VectorState,
    materials: Materials,
    center: IVec2,
    path: Seq<IVec2>,
    vel: IVec2,
    bounce: IVec2,
    dt: u8,
    n: nat,
) -> VectorState
    decreases n,
{
    if n == 0 {
        s
    } else {
        vector_step(vector_run(s, materials, center, path, vel, bounce, dt, (n - 1) as nat), materials, center, path[n - 1], vel, bounce, dt)
    }
}

proof fn lemma_vector_done(
    s: VectorState,
    materials: Materials,
    center: IVec2,
    path: Seq<IVec2>,
    vel: IVec2,
    bounce: IVec2,
    dt: u8,
    f: nat,
    n: nat,
)
    requires
        f <= n,
        vector_run(s, materials, center, path, vel, bounce, dt, f).4,
    ensures
        vector_run(s, materials, center, path, vel, bounce, dt, n) == vector_run(s, materials, center, path, vel, bounce, dt, f),
    decreases n - f,
{
    if n > f {
        lemma_vector_done(s, materials, center, path, vel, bounce, dt, f, (n - 1) as nat);
    }
}

/// A position from which the moving atom may look one step further down.
pub open spec fn vector_pos_ok(p: IVec2) -> bool {
    32 <= p.x < 160 && 32 <= p.y < 159
}

/// One position `p` of the line of the moving atom at `cur` (see
/// `vector_step`): returns where the atom is, and whether it stopped.
fn vector_move(
    chunks: &mut UpdateChunksType,
    awakened: &mut Vec<IVec2>,
    cur: IVec2,
    p: IVec2,
    vel: IVec2,
    bounce: IVec2,
    dt: u8,
) -> (r: (IVec2, bool))
    requires
        old(chunks).wf(),
        old(chunks).has(cur),
        old(chunks).has(p),
        vector_pos_ok(cur),
        vector_pos_ok(p),
        -536870911 <= vel.x <= 536870911,
        -536870911 <= vel.y <= 536870911,
        old(awakened)@.no_duplicates(),
        all_held(*old(chunks), old(awakened)@),
    ensures
        (final(chunks).world(), r.0, final(awakened)@, final(chunks).dirty_render_rects@, r.1) == vector_step(
            (old(chunks).world(), cur, old(awakened)@, old(chunks).dirty_render_rects@, false),
            old(chunks).materials,
            old(chunks).group.center_pos,
            p,
            vel,
            bounce,
            dt,
        ),
        final(chunks).wf(),
        final(chunks).materials == old(chunks).materials,
        final(chunks).group.center_pos == old(chunks).group.center_pos,
        final(chunks).dirty_update_rects == old(chunks).dirty_update_rects,
        final(chunks).world().dom() == old(chunks).world().dom(),
        final(chunks).world().contains_key(r.0),
        vector_pos_ok(r.0),
        final(awakened)@.no_duplicates(),
        all_held(*final(chunks), final(awakened)@),
{
    proof {
        crate::group_api::lemma_id_ok(*chunks, cur);
        crate::group_api::lemma_id_ok(*chunks, p);
    }
    let ghost w = chunks.world();
    let ghost aw0 = awakened@;
    insert_pos(awakened, cur);
    proof {
        lemma_insert_props(aw0, cur);
    }
    let material = get_material(chunks, cur);
    proof {
        crate::group_api::lemma_near_center_ok(*chunks, p);
    }
    if swapable(chunks, p, &[], material, dt) {
        swap(chunks, cur, p, dt);
        let ghost aw1 = awakened@;
        insert_pos(awakened, p);
        proof {
            lemma_insert_props(aw1, p);
            assert forall|k: int| 0 <= k < awakened@.len() implies chunks.world().contains_key(#[trigger] awakened@[k]) by {
                assert(awakened@.contains(awakened@[k]));
            }
            assert(chunks.world().dom() =~= w.dom());
        }
        (p, false)
    } else if get_material(chunks, p).is_liquid() && material.is_liquid() {
        let ghost aw1 = awakened@;
        insert_pos(awakened, p);
        let fast = ivec2(vel.x * 4 / 5, vel.y * 4 / 5);
        let slow = ivec2(vel.x / 5, vel.y / 5);
        set_vel(chunks, p, fast);
        assert(chunks.world().contains_key(cur));
        assert(chunks.has(cur));
        set_vel(chunks, cur, slow);
        proof {
            lemma_insert_props(aw1, p);
            assert forall|k: int| 0 <= k < awakened@.len() implies chunks.world().contains_key(#[trigger] awakened@[k]) by {
                assert(awakened@.contains(awakened@[k]));
            }
            assert(fast == scaled_fifths(vel, 4));
            assert(slow == scaled_fifths(vel, 1));
            assert(chunks.world().dom() =~= w.dom());
        }
        (cur, true)
    } else {
        if abs_i32(vel.x) > 4 && abs_i32(vel.y) > 4 {
            set_vel(chunks, cur, bounce);
        } else {
            let below = ivec2(cur.x, cur.y + 1);
            proof {
                crate::group_api::lemma_near_center_ok(*chunks, below);
            }
            if !swapable(chunks, below, &[], material, dt) {
                set_vel(chunks, cur, ivec2(0, 0));
            }
        }
        proof {
            assert forall|k: int| 0 <= k < awakened@.len() implies chunks.world().contains_key(#[trigger] awakened@[k]) by {
                assert(awakened@.contains(awakened@[k]));
            }
            assert(chunks.world().dom() =~= w.dom());
        }
        (cur, true)
    }
}

/// Moves the atom at `pos` along `path`, the positions of the line of its
/// velocity `vel` (as gravity left it), bouncing back with velocity
/// `bounce` (half its velocity, turned around) where it hits something while
/// fast; returns the positions awakened.
pub fn update_atom_along(
    chunks: &mut UpdateChunksType,
    pos: IVec2,
    vel: IVec2,
    path: &Vec<IVec2>,
    bounce: IVec2,
    dt: u8,
) -> (awakened: Vec<IVec2>)
    requires
        old(chunks).wf(),
        old(chunks).has(pos),
        vector_pos_ok(pos),
        -536870911 <= vel.x <= 536870911,
        -536870911 <= vel.y <= 536870911,
        forall|i: int| 0 <= i < path@.len() ==> vector_pos_ok(#[trigger] path@[i]),
        forall|i: int|
            0 <= i < path@.len() && !vector_run(
                (old(chunks).world(), pos, Seq::empty(), old(chunks).dirty_render_rects@, false),
                old(chunks).materials,
                old(chunks).group.center_pos,
                path@,
                vel,
                bounce,
                dt,
                i as nat,
            ).4 ==> old(chunks).world().contains_key(#[trigger] path@[i]),
    ensures
        ({
            let s = vector_run(
                (old(chunks).world(), pos, Seq::empty(), old(chunks).dirty_render_rects@, false),
                old(chunks).materials,
                old(chunks).group.center_pos,
                path@,
                vel,
                bounce,
                dt,
                path@.len() as nat,
            );
            &&& final(chunks).world() == s.0
            &&& final(chunks).dirty_render_rects@ == s.3
            &&& awakened@ == s.2
        }),
        final(chunks).wf(),
        final(chunks).materials == old(chunks).materials,
        final(chunks).group.center_pos == old(chunks).group.center_pos,
        final(chunks).dirty_update_rects == old(chunks).dirty_update_rects,
        awakened@.no_duplicates(),
        all_held(*final(chunks), awakened@),
{
    let ghost s0: VectorState = (chunks.world(), pos, Seq::empty(), chunks.dirty_render_rects@, false);
    let ghost mats = chunks.materials;
    let ghost center = chunks.group.center_pos;
    let ghost w0 = chunks.world();
    let mut awakened: Vec<IVec2> = Vec::new();
    let mut cur_pos = pos;
    let mut i: usize = 0;
    let mut done = false;
    while i < path.len() && !done
        invariant
            i <= path@.len(),
            chunks.wf(),
            chunks.materials == mats,
            mats == old(chunks).materials,
            chunks.group.center_pos == center,
            center == old(chunks).group.center_pos,
            chunks.dirty_update_rects == old(chunks).dirty_update_rects,
            w0 == old(chunks).world(),
            -536870911 <= vel.x <= 536870911,
            -536870911 <= vel.y <= 536870911,
            forall|k: int| 0 <= k < path@.len() ==> vector_pos_ok(#[trigger] path@[k]),
            forall|k: int|
                0 <= k < path@.len() && !vector_run(s0, mats, center, path@, vel, bounce, dt, k as nat).4
                    ==> w0.contains_key(#[trigger] path@[k]),
            chunks.world().dom() == w0.dom(),
            vector_pos_ok(cur_pos),
            chunks.world().contains_key(cur_pos),
            (chunks.world(), cur_pos, awakened@, chunks.dirty_render_rects@, done) == vector_run(
                s0,
                mats,
                center,
                path@,
                vel,
                bounce,
                dt,
                i as nat,
            ),
            awakened@.no_duplicates(),
            all_held(*chunks, awakened@),
        decreases path@.len() - i,
    {
        let p = path[i];
        assert(w0.contains_key(p));
        let (next, d) = vector_move(chunks, &mut awakened, cur_pos, p, vel, bounce, dt);
        cur_pos = next;
        done = d;
        i += 1;
    }
    proof {
        if done {
            lemma_vector_done(s0, mats, center, path@, vel, bounce, dt, i as nat, path@.len() as nat);
        }
    }
    awakened
}

} // verus!
