use vstd::prelude::*;
use crate::atom::Atom;
use crate::chunk_manager::{ChunkManager, atom_index};
use crate::manager_api::{ChunkPos, global_to_chunk, chunk_pos_at, RectMap, rects_wf, with_neighbors, update_dirty_rects_3x3, lemma_split, lemma_div_mod_64, global_coord_ok};
use crate::materials::Materials;
use crate::math::{IVec2, ivec2, signum_i32};
use crate::consts::UP_WALK_HEIGHT;

verus! {

/// The integer part of an actor: its size and the position of its top left
/// atom.
#[derive(Clone, Copy, Debug, PartialEq, Eq, Structural)]
pub struct Actor {
    pub width: u8,
    pub height: u8,
    pub pos: IVec2,
}

/// The positions around the actor, one atom beyond each side, are valid
/// global positions, and a step to the right or down does not overflow.
pub open spec fn actor_ok(a: Actor) -> bool {
    &&& global_coord_ok(a.pos.x - 1)
    &&& global_coord_ok(a.pos.y - 1)
    &&& a.pos.x + a.width <= i32::MAX
    &&& a.pos.y + a.height <= i32::MAX
    &&& a.pos.x < i32::MAX
    &&& a.pos.y < i32::MAX
}

/// Every atom of the loaded chunks has a material.
pub open spec fn ids_known(cm: ChunkManager, materials: Materials) -> bool {
    forall|k: (i32, i32), j: int|
        cm.world().contains_key(k) && 0 <= j < cm.world()[k].len()
            ==> (#[trigger] cm.world()[k][j]).id < materials.0.len()
}

/// The atom at global position `(gx, gy)`, if its chunk is loaded.
pub open spec fn atom_at_global(cm: ChunkManager, gx: int, gy: int) -> Option<Atom> {
    cm.atom_at(chunk_pos_at(gx, gy))
}

/// An actor cannot enter global position `(gx, gy)`: its chunk is not loaded,
/// or it holds a powder or a solid.
pub open spec fn blocked(cm: ChunkManager, materials: Materials, gx: int, gy: int) -> bool {
    match atom_at_global(cm, gx, gy) {
        None => true,
        Some(a) => materials.of(a.id).is_powder_spec() || materials.of(a.id).is_solid_spec(),
    }
}

/// The atom at a global position, and whether it blocks an actor.
fn blocked_at(cm: &ChunkManager, materials: &Materials, p: IVec2) -> (b: bool)
    requires
        cm.wf(),
        ids_known(*cm, *materials),
        global_coord_ok(p.x as int),
        global_coord_ok(p.y as int),
    ensures
        b == blocked(*cm, *materials, p.x as int, p.y as int),
{
    let chunk_pos = global_to_chunk(p);
    // Check bounds and if it's free to move
    if let Some(atom) = cm.get_atom(&chunk_pos) {
        proof {
            assert(cm.chunks@[crate::math::key_of(chunk_pos.chunk)].atoms@[atom_index(chunk_pos)] == *atom);
            assert(cm.world()[crate::math::key_of(chunk_pos.chunk)][atom_index(chunk_pos)] == *atom);
        }
        let m = materials.get_from_atom(atom);
        m.is_powder() || m.is_solid()
    } else {
        true
    }
}

/// The actor stands on something: an atom under it is a powder or a solid,
/// or lies in a chunk that is not loaded.
pub open spec fn grounded(cm: ChunkManager, materials: Materials, a: Actor) -> bool {
    exists|x: int| 0 <= x < a.width && #[trigger] blocked(cm, materials, a.pos.x + x, a.pos.y + a.height)
}

/// Whether the actor stands on something: an atom under it is a powder or a
/// solid, or lies in a chunk that is not loaded.
pub fn on_ground(chunk_manager: &ChunkManager, actor: &Actor, materials: &Materials) -> (b: bool)
    requires
        chunk_manager.wf(),
        ids_known(*chunk_manager, *materials),
        actor_ok(*actor),
    ensures
        b == grounded(*chunk_manager, *materials, *actor),
{
    let mut x_off: u8 = 0;
    while x_off < actor.width
        invariant
            chunk_manager.wf(),
            ids_known(*chunk_manager, *materials),
            actor_ok(*actor),
            x_off <= actor.width,
            forall|x: int|
                0 <= x < x_off ==> !#[trigger] blocked(
                    *chunk_manager,
                    *materials,
                    actor.pos.x + x,
                    actor.pos.y + actor.height,
                ),
        decreases actor.width - x_off,
    {
        if blocked_at(chunk_manager, materials, ivec2(actor.pos.x + x_off as i32, actor.pos.y + actor.height as i32)) {
            return true;
        }
        x_off += 1;
    }

    false
}

/// The column that an actor moving along x by `dir` enters.
pub open spec fn entered_x(a: Actor, dir: int) -> int {
    if dir > 0 { a.pos.x + a.width } else { a.pos.x - 1 }
}

/// The row that an actor moving along y by `dir` enters.
pub open spec fn entered_y(a: Actor, dir: int) -> int {
    if dir > 0 { a.pos.y + a.height } else { a.pos.y - 1 }
}

/// The column (or row) that an actor moving by `dir` would enter is free.
pub open spec fn column_free(cm: ChunkManager, materials: Materials, a: Actor, dir: int) -> bool {
    forall|y: int|
        0 <= y < a.height ==> !#[trigger] blocked(
            cm,
            materials,
            entered_x(a, dir),
            a.pos.y + y,
        )
}

/// The row that an actor moving vertically by `dir` would enter is free.
pub open spec fn row_free(cm: ChunkManager, materials: Materials, a: Actor, dir: int) -> bool {
    forall|x: int|
        0 <= x < a.width ==> !#[trigger] blocked(
            cm,
            materials,
            a.pos.x + x,
            entered_y(a, dir),
        )
}

/// Moves the actor by `dir` along x if the column it would enter is free;
/// tells whether it moved.
pub fn move_x(chunk_manager: &ChunkManager, actor: &mut Actor, dir: i32, materials: &Materials) -> (moved: bool)
    requires
        chunk_manager.wf(),
        ids_known(*chunk_manager, *materials),
        actor_ok(*old(actor)),
        column_free(*chunk_manager, *materials, *old(actor), dir as int) ==> i32::MIN <= old(actor).pos.x + dir
            <= i32::MAX,
    ensures
        moved == column_free(*chunk_manager, *materials, *old(actor), dir as int),
        *final(actor) == if moved {
            Actor { pos: IVec2 { x: (old(actor).pos.x + dir) as i32, y: old(actor).pos.y }, ..*old(actor) }
        } else {
            *old(actor)
        },
{
    //Check if we can move
    let mut y_off: u8 = 0;
    while y_off < actor.height
        invariant
            chunk_manager.wf(),
            ids_known(*chunk_manager, *materials),
            actor_ok(*actor),
            *actor == *old(actor),
            y_off <= actor.height,
            forall|y: int|
                0 <= y < y_off ==> !#[trigger] blocked(
                    *chunk_manager,
                    *materials,
                    entered_x(*actor, dir as int),
                    actor.pos.y + y,
                ),
        decreases actor.height - y_off,
    {
        let pos = if dir > 0 {
            // Moving right
            ivec2(actor.pos.x + actor.width as i32, actor.pos.y + y_off as i32)
        } else {
            // Moving left
            ivec2(actor.pos.x - 1, actor.pos.y + y_off as i32)
        };

        if blocked_at(chunk_manager, materials, pos) {
            assert(blocked(*chunk_manager, *materials, entered_x(*actor, dir as int), actor.pos.y + y_off));
            return false;
        }
        y_off += 1;
    }

    actor.pos.x += dir;

    true
}

/// Moves the actor by `dir` along y if the row it would enter is free; tells
/// whether it moved.
pub fn move_y(chunk_manager: &ChunkManager, actor: &mut Actor, dir: i32, materials: &Materials) -> (moved: bool)
    requires
        chunk_manager.wf(),
        ids_known(*chunk_manager, *materials),
        actor_ok(*old(actor)),
        row_free(*chunk_manager, *materials, *old(actor), dir as int) ==> i32::MIN <= old(actor).pos.y + dir
            <= i32::MAX,
    ensures
        moved == row_free(*chunk_manager, *materials, *old(actor), dir as int),
        *final(actor) == if moved {
            Actor { pos: IVec2 { x: old(actor).pos.x, y: (old(actor).pos.y + dir) as i32 }, ..*old(actor) }
        } else {
            *old(actor)
        },
{
    //Check if we can move
    let mut x_off: u8 = 0;
    while x_off < actor.width
        invariant
            chunk_manager.wf(),
            ids_known(*chunk_manager, *materials),
            actor_ok(*actor),
            *actor == *old(actor),
            x_off <= actor.width,
            forall|x: int|
                0 <= x < x_off ==> !#[trigger] blocked(
                    *chunk_manager,
                    *materials,
                    actor.pos.x + x,
                    entered_y(*actor, dir as int),
                ),
        decreases actor.width - x_off,
    {
        let pos = if dir > 0 {
            // Moving down
            ivec2(actor.pos.x + x_off as i32, actor.pos.y + actor.height as i32)
        } else {
            // Moving up
            ivec2(actor.pos.x + x_off as i32, actor.pos.y - 1)
        };

        if blocked_at(chunk_manager, materials, pos) {
            assert(blocked(*chunk_manager, *materials, actor.pos.x + x_off, entered_y(*actor, dir as int)));
            return false;
        }
        x_off += 1;
    }

    actor.pos.y += dir;

    true
}

} // verus!

verus! {

/// An actor far enough from the edge of the `i32` range for a step sideways
/// and a stair climb, and whose atoms lie in chunks whose 3x3 squares can be
/// marked dirty.
pub open spec fn actor_inner(a: Actor) -> bool {
    &&& i32::MIN + 128 <= a.pos.x - 2
    &&& a.pos.x + a.width + 1 < i32::MAX - 63
    &&& i32::MIN + 128 <= a.pos.y - 18
    &&& a.pos.y + a.height + 17 < i32::MAX - 63
}

/// The actor may move up to 8 atoms up or down and stay within `actor_ok`.
pub open spec fn stair_room(a: Actor) -> bool {
    &&& actor_ok(a)
    &&& global_coord_ok(a.pos.y - 9)
    &&& a.pos.y + a.height + 8 < i32::MAX
}

/// `a` moved by `(dx, dy)`.
pub open spec fn moved_by(a: Actor, dx: int, dy: int) -> Actor {
    Actor { pos: IVec2 { x: (a.pos.x + dx) as i32, y: (a.pos.y + dy) as i32 }, ..a }
}

/// The actor after `n` steps by `dir` along y, each taken only where the row
/// it enters is free.
pub open spec fn stair_back(cm: ChunkManager, materials: Materials, a: Actor, dir: int, n: nat) -> Actor
    decreases n,
{
    if n == 0 {
        a
    } else {
        let b = stair_back(cm, materials, a, dir, (n - 1) as nat);
        if row_free(cm, materials, b, dir) {
            moved_by(b, 0, dir)
        } else {
            b
        }
    }
}

/// Moves the actor back towards `starting_y`, by `dir` at each of
/// `starting_y - actor.pos.y` steps (each step moves only if the row is free).
pub fn abort_stair(chunk_manager: &ChunkManager, actor: &mut Actor, starting_y: i32, dir: i32, materials: &Materials)
    requires
        chunk_manager.wf(),
        ids_known(*chunk_manager, *materials),
        stair_room(*old(actor)),
        -1 <= dir <= 1,
        0 <= starting_y - old(actor).pos.y <= 8,
    ensures
        *final(actor) == stair_back(*chunk_manager, *materials, *old(actor), dir as int, (starting_y - old(actor).pos.y) as nat),
        final(actor).pos.x == old(actor).pos.x,
        final(actor).width == old(actor).width,
        final(actor).height == old(actor).height,
        dir == 1 ==> old(actor).pos.y <= final(actor).pos.y <= starting_y,
        dir == 0 ==> final(actor).pos.y == old(actor).pos.y,
        dir == -1 ==> old(actor).pos.y - (starting_y - old(actor).pos.y) <= final(actor).pos.y <= old(actor).pos.y,
{
    let n = starting_y - actor.pos.y;
    let ghost y0 = actor.pos.y;
    let mut i: i32 = 0;
    while i < n
        invariant
            chunk_manager.wf(),
            ids_known(*chunk_manager, *materials),
            0 <= i <= n,
            n == starting_y - y0,
            0 <= n <= 8,
            y0 == old(actor).pos.y,
            stair_room(*old(actor)),
            -1 <= dir <= 1,
            actor.pos.x == old(actor).pos.x,
            actor.width == old(actor).width,
            actor.height == old(actor).height,
            dir == 1 ==> y0 <= actor.pos.y <= y0 + i,
            dir == 0 ==> actor.pos.y == y0,
            dir == -1 ==> y0 - i <= actor.pos.y <= y0,
            *actor == stair_back(*chunk_manager, *materials, *old(actor), dir as int, i as nat),
        decreases n - i,
    {
        move_y(chunk_manager, actor, dir, materials);
        i += 1;
    }
}

/// `(v - prev)` chooses a horizontal move: along x only, or diagonally when
/// `diagonal_hor` says so.
pub open spec fn step_is_horizontal(prev: IVec2, v: IVec2, diagonal_hor: bool) -> bool {
    if prev.x != v.x && prev.y == v.y {
        true
    } else if prev.x == v.x {
        false
    } else {
        diagonal_hor
    }
}

/// The sign of an integer.
pub open spec fn sign(v: int) -> int {
    if v < 0 { -1 } else if v == 0 { 0 } else { 1 }
}

/// An actor `a` blocked sideways while on the ground tries to walk up a
/// stair: from level `i` (the actor `i - 1` atoms up), it goes one atom up
/// if it can, and after `UP_WALK_HEIGHT` atoms one step sideways by `dx`;
/// where it cannot, it goes back down towards where it started.
pub open spec fn climb_from(cm: ChunkManager, materials: Materials, a: Actor, dx: int, i: nat) -> Actor
    decreases (if i < UP_WALK_HEIGHT { UP_WALK_HEIGHT - i } else { 0 }),
{
    let cur = moved_by(a, 0, -(i - 1));
    if !row_free(cm, materials, cur, -1) {
        stair_back(cm, materials, cur, 1, (i - 1) as nat)
    } else if i >= UP_WALK_HEIGHT {
        let top = moved_by(a, 0, -(i as int));
        if column_free(cm, materials, top, dx) {
            moved_by(top, dx, 0)
        } else {
            stair_back(cm, materials, top, 1, i)
        }
    } else {
        climb_from(cm, materials, a, dx, i + 1)
    }
}

/// What one step of an actor does, given how a diagonal step is taken:
/// `a` is the actor before, `b` after, `r` what the step returns.
pub open spec fn step_outcome(
    cm: ChunkManager,
    materials: Materials,
    a: Actor,
    prev: IVec2,
    v: IVec2,
    diagonal_hor: bool,
    b: Actor,
    r: (bool, bool),
) -> bool {
    let dx = sign(v.x - prev.x);
    let dy = sign(v.y - prev.y);
    if step_is_horizontal(prev, v, diagonal_hor) {
        &&& r.0 == !column_free(cm, materials, a, dx)
        &&& !r.1
        &&& column_free(cm, materials, a, dx) ==> b == moved_by(a, dx, 0)
        &&& !column_free(cm, materials, a, dx) && !grounded(cm, materials, a) ==> b == a
        &&& !column_free(cm, materials, a, dx) && grounded(cm, materials, a) ==> b == climb_from(cm, materials, a, dx, 1)
    } else {
        &&& r.0 == !row_free(cm, materials, a, dy)
        &&& r.1 == r.0
        &&& b == if r.0 { a } else { moved_by(a, 0, dy) }
    }
}

/// One step of an actor along the line of its velocity, from line point
/// `prev` to the next one `v`, given how a diagonal step is taken. A
/// horizontal step that is blocked while the actor stands on the ground tries
/// to walk up a stair of `UP_WALK_HEIGHT` atoms, and goes back down if it
/// cannot. Returns whether a move was blocked (the actor then stops) and
/// whether a vertical move was blocked (the actor hit something).
pub fn actor_step_with(
    chunk_manager: &ChunkManager,
    actor: &mut Actor,
    prev: IVec2,
    v: IVec2,
    diagonal_hor: bool,
    materials: &Materials,
) -> (r: (bool, bool))
    requires
        chunk_manager.wf(),
        ids_known(*chunk_manager, *materials),
        actor_inner(*old(actor)),
        -1 <= v.x - prev.x <= 1,
        -1 <= v.y - prev.y <= 1,
        prev != v,
    ensures
        step_outcome(*chunk_manager, *materials, *old(actor), prev, v, diagonal_hor, *final(actor), r),
{
    let move_hor = if prev.x != v.x && prev.y == v.y {
        true
    } else if prev.x == v.x {
        false
    } else {
        diagonal_hor
    };

    if move_hor {
        let dir = signum_i32(v.x - prev.x);
        let moved_x = move_x(chunk_manager, actor, dir, materials);
        if on_ground(chunk_manager, actor, materials) {
            let starting_y = actor.pos.y;
            if !moved_x {
                //If we can't move to the left or right
                //Check if we can get up a stair-like structure
                let mut i: usize = 1;
                while i <= UP_WALK_HEIGHT
                    invariant
                        chunk_manager.wf(),
                        ids_known(*chunk_manager, *materials),
                        1 <= i <= UP_WALK_HEIGHT,
                        actor_inner(*old(actor)),
                        starting_y == old(actor).pos.y,
                        dir == sign(v.x - prev.x),
                        step_is_horizontal(prev, v, diagonal_hor),
                        !column_free(*chunk_manager, *materials, *old(actor), dir as int),
                        grounded(*chunk_manager, *materials, *old(actor)),
                        -1 <= dir <= 1,
                        *actor == moved_by(*old(actor), 0, -(i - 1)),
                        climb_from(*chunk_manager, *materials, *old(actor), dir as int, 1) == climb_from(
                            *chunk_manager,
                            *materials,
                            *old(actor),
                            dir as int,
                            i as nat,
                        ),
                    decreases UP_WALK_HEIGHT + 1 - i,
                {
                    let ghost cur = *actor;
                    let moved_y = move_y(chunk_manager, actor, -1, materials);
                    //Abort if we couldn't move up, or if we moved up but couldn't move sideways on the last step
                    if !moved_y {
                        assert(starting_y - actor.pos.y == i - 1);
                        abort_stair(chunk_manager, actor, starting_y, 1, materials);
                        assert(*actor == climb_from(*chunk_manager, *materials, *old(actor), dir as int, i as nat));
                        return (true, false);
                    }
                    assert(*actor == moved_by(*old(actor), 0, -(i as int)));
                    if i == UP_WALK_HEIGHT {
                        let ghost top = *actor;
                        if !move_x(chunk_manager, actor, dir, materials) {
                            assert(starting_y - actor.pos.y == i);
                            abort_stair(chunk_manager, actor, starting_y, 1, materials);
                            assert(*actor == climb_from(*chunk_manager, *materials, *old(actor), dir as int, i as nat));
                            return (true, false);
                        }
                        assert(*actor == climb_from(*chunk_manager, *materials, *old(actor), dir as int, i as nat));
                        return (true, false);
                    }
                    assert(climb_from(*chunk_manager, *materials, *old(actor), dir as int, i as nat) == climb_from(
                        *chunk_manager,
                        *materials,
                        *old(actor),
                        dir as int,
                        (i + 1) as nat,
                    ));
                    i += 1;
                }
            }
        }
        (!moved_x, false)
    } else {
        let dir = signum_i32(v.y - prev.y);
        let moved_y = move_y(chunk_manager, actor, dir, materials);
        (!moved_y, !moved_y)
    }
}

} // verus!

verus! {

/// `fastrand::bool`: a coin flip. Nothing is promised of the outcome.
#[verifier::external_body]
fn random_coin() -> (b: bool) {
    fastrand::bool()
}

/// One step of an actor along the line of its velocity (see
/// `actor_step_with`); a diagonal step goes horizontally or vertically at
/// random.
pub fn actor_step(
    chunk_manager: &ChunkManager,
    actor: &mut Actor,
    prev: IVec2,
    v: IVec2,
    materials: &Materials,
) -> (r: (bool, bool))
    requires
        chunk_manager.wf(),
        ids_known(*chunk_manager, *materials),
        actor_inner(*old(actor)),
        -1 <= v.x - prev.x <= 1,
        -1 <= v.y - prev.y <= 1,
        prev != v,
    ensures
        step_outcome(*chunk_manager, *materials, *old(actor), prev, v, true, *final(actor), r)
            || step_outcome(*chunk_manager, *materials, *old(actor), prev, v, false, *final(actor), r),
{
    let diagonal_hor = if prev.x != v.x && prev.y != v.y {
        random_coin()
    } else {
        false
    };
    actor_step_with(chunk_manager, actor, prev, v, diagonal_hor, materials)
}

} // verus!

verus! {

/// Global position of the atom at index `j` of the chunk with key `k`.
pub open spec fn cell_x(k: (i32, i32), j: int) -> int {
    k.0 * 64 + j % 64
}

/// Global position of the atom at index `j` of the chunk with key `k`.
pub open spec fn cell_y(k: (i32, i32), j: int) -> int {
    k.1 * 64 + j / 64
}

/// The cell `(gx, gy)` is covered by the actor, among its first cells: those
/// of the columns before `cx`, and those of column `cx` above `cy`.
pub open spec fn in_footprint_upto(a: Actor, gx: int, gy: int, cx: int, cy: int) -> bool {
    let xo = gx - a.pos.x;
    let yo = gy - a.pos.y;
    0 <= xo < a.width && 0 <= yo < a.height && (xo < cx || (xo == cx && yo < cy))
}

/// The cell `(gx, gy)` is covered by the actor.
pub open spec fn in_footprint(a: Actor, gx: int, gy: int) -> bool {
    let xo = gx - a.pos.x;
    let yo = gy - a.pos.y;
    0 <= xo < a.width && 0 <= yo < a.height
}

/// The chunks once the void cells that satisfy `cover` hold an object.
pub open spec fn filled(
    w: Map<(i32, i32), Seq<Atom>>,
    materials: Materials,
    cover: spec_fn(int, int) -> bool,
) -> Map<(i32, i32), Seq<Atom>> {
    Map::new(
        |k: (i32, i32)| w.contains_key(k),
        |k: (i32, i32)|
            Seq::new(
                w[k].len(),
                |j: int|
                    if cover(cell_x(k, j), cell_y(k, j)) && materials.of(w[k][j].id).is_void_spec() {
                        crate::atom::object_atom()
                    } else {
                        w[k][j]
                    },
            ),
    )
}

/// The chunks once the object cells that satisfy `cover` hold the empty atom.
pub open spec fn unfilled(
    w: Map<(i32, i32), Seq<Atom>>,
    materials: Materials,
    cover: spec_fn(int, int) -> bool,
) -> Map<(i32, i32), Seq<Atom>> {
    Map::new(
        |k: (i32, i32)| w.contains_key(k),
        |k: (i32, i32)|
            Seq::new(
                w[k].len(),
                |j: int|
                    if cover(cell_x(k, j), cell_y(k, j)) && materials.of(w[k][j].id).is_object_spec() {
                        crate::atom::default_atom()
                    } else {
                        w[k][j]
                    },
            ),
    )
}

/// The chunk position of a global position is the cell `(k, j)` exactly when
/// `(k, j)` has that global position.
proof fn lemma_cell_of(gx: int, gy: int, k: (i32, i32), j: int)
    requires
        i32::MIN + 64 <= gx <= i32::MAX,
        i32::MIN + 64 <= gy <= i32::MAX,
        0 <= j < 4096,
    ensures
        (crate::math::key_of(chunk_pos_at(gx, gy).chunk) == k && atom_index(chunk_pos_at(gx, gy)) == j)
            <==> (cell_x(k, j) == gx && cell_y(k, j) == gy),
        0 <= atom_index(chunk_pos_at(gx, gy)) < 4096,
{
    lemma_div_mod_64(gx);
    lemma_div_mod_64(gy);
    lemma_div_mod_64(j);
    let cp = chunk_pos_at(gx, gy);
    if cell_x(k, j) == gx && cell_y(k, j) == gy {
        lemma_split(k.0 as int, j % 64);
        lemma_split(k.1 as int, j / 64);
    }
    assert(atom_index(cp) == (gy % 64) * 64 + gx % 64);
    if crate::math::key_of(cp.chunk) == k && atom_index(cp) == j {
        lemma_split(gy % 64, gx % 64);
    }
}

} // verus!

verus! {

/// One more cell of the actor filled.
proof fn lemma_fill_step(
    w0: Map<(i32, i32), Seq<Atom>>,
    wb: Map<(i32, i32), Seq<Atom>>,
    wa: Map<(i32, i32), Seq<Atom>>,
    materials: Materials,
    a: Actor,
    x: int,
    y: int,
    pos: ChunkPos,
)
    requires
        forall|k: (i32, i32)| #[trigger] w0.contains_key(k) ==> w0[k].len() == 4096,
        actor_inner(a),
        0 <= x < a.width,
        0 <= y < a.height,
        pos == chunk_pos_at(a.pos.x + x, a.pos.y + y),
        wb == filled(w0, materials, |gx: int, gy: int| in_footprint_upto(a, gx, gy, x, y)),
        ({
            let k = crate::math::key_of(pos.chunk);
            let j = atom_index(pos);
            wa == if wb.contains_key(k) && j < wb[k].len() && materials.of(wb[k][j].id).is_void_spec() {
                wb.insert(k, wb[k].update(j, crate::atom::object_atom()))
            } else {
                wb
            }
        }),
    ensures
        wa == filled(w0, materials, |gx: int, gy: int| in_footprint_upto(a, gx, gy, x, y + 1)),
{
    let target = filled(w0, materials, |gx: int, gy: int| in_footprint_upto(a, gx, gy, x, y + 1));
    let gx0 = a.pos.x + x;
    let gy0 = a.pos.y + y;
    assert forall|k: (i32, i32)| #[trigger] wa.contains_key(k) implies wa[k] =~= target[k] by {
        assert forall|j: int| 0 <= j < wa[k].len() implies wa[k][j] == target[k][j] by {
            lemma_cell_of(gx0, gy0, k, j);
        }
    }
    assert(wa =~= target);
}

/// The dirty rectangles once the 3x3 squares around the first cells of the
/// actor (the columns before `cx`, and column `cx` above `cy`) are marked.
pub open spec fn fill_rects(m: Map<(i32, i32), crate::math::URect>, a: Actor, cx: nat, cy: nat) -> Map<
    (i32, i32),
    crate::math::URect,
>
    decreases cx, cy,
{
    if cy > 0 {
        with_neighbors(fill_rects(m, a, cx, (cy - 1) as nat), chunk_pos_at(a.pos.x + cx, a.pos.y + cy - 1), 9)
    } else if cx > 0 {
        fill_rects(m, a, (cx - 1) as nat, a.height as nat)
    } else {
        m
    }
}

/// The ids of the atoms under the actor that are loaded and not void, in
/// the order the cells are visited (column by column, each from the top),
/// for the columns before `cx` and the first `cy` cells of column `cx`.
pub open spec fn hit_ids(w: Map<(i32, i32), Seq<Atom>>, materials: Materials, a: Actor, cx: nat, cy: nat) -> Seq<u8>
    decreases cx, cy,
{
    if cy > 0 {
        let prev = hit_ids(w, materials, a, cx, (cy - 1) as nat);
        let cp = chunk_pos_at(a.pos.x + cx, a.pos.y + cy - 1);
        let k = crate::math::key_of(cp.chunk);
        let j = atom_index(cp);
        if w.contains_key(k) && j < w[k].len() && !materials.of(w[k][j].id).is_void_spec() {
            prev.push(w[k][j].id)
        } else {
            prev
        }
    } else if cx > 0 {
        hit_ids(w, materials, a, (cx - 1) as nat, a.height as nat)
    } else {
        Seq::empty()
    }
}

/// Called before simulations: the void atoms under the actor become objects,
/// so that the simulation sees the actor, and the 3x3 squares around its
/// atoms are marked dirty. Returns the ids of the atoms under the actor that
/// are not void (they may hurt it).
pub fn fill_actor(
    chunk_manager: &mut ChunkManager,
    dirty_rects: &mut RectMap,
    actor: &Actor,
    materials: &Materials,
) -> (hits: Vec<u8>)
    requires
        old(chunk_manager).wf(),
        ids_known(*old(chunk_manager), *materials),
        actor_inner(*actor),
        rects_wf(old(dirty_rects)@),
        materials.0.len() > 1,
    ensures
        final(chunk_manager).wf(),
        ids_known(*final(chunk_manager), *materials),
        final(chunk_manager).world() == filled(
            old(chunk_manager).world(),
            *materials,
            |gx: int, gy: int| in_footprint(*actor, gx, gy),
        ),
        final(chunk_manager).chunks@.dom() == old(chunk_manager).chunks@.dom(),
        final(chunk_manager).pos == old(chunk_manager).pos,
        final(chunk_manager).dt == old(chunk_manager).dt,
        final(dirty_rects)@ == fill_rects(old(dirty_rects)@, *actor, actor.width as nat, 0),
        rects_wf(final(dirty_rects)@),
        hits@ == hit_ids(old(chunk_manager).world(), *materials, *actor, actor.width as nat, 0),
{
    let ghost w0 = chunk_manager.world();
    proof {
        let start = filled(w0, *materials, |gx: int, gy: int| in_footprint_upto(*actor, gx, gy, 0, 0));
        assert forall|k: (i32, i32)| #[trigger] start.contains_key(k) implies start[k] =~= w0[k] by {}
        assert(start =~= w0);
    }
    let mut hits: Vec<u8> = Vec::new();
    let mut x_off: u8 = 0;
    while x_off < actor.width
        invariant
            forall|k: (i32, i32)| #[trigger] w0.contains_key(k) ==> w0[k].len() == 4096,
            chunk_manager.wf(),
            ids_known(*chunk_manager, *materials),
            actor_inner(*actor),
            materials.0.len() > 1,
            x_off <= actor.width,
            chunk_manager.chunks@.dom() == old(chunk_manager).chunks@.dom(),
            chunk_manager.pos == old(chunk_manager).pos && chunk_manager.dt == old(chunk_manager).dt,
            w0 == old(chunk_manager).world(),
            chunk_manager.world() == filled(w0, *materials, |gx: int, gy: int| in_footprint_upto(*actor, gx, gy, x_off as int, 0)),
            rects_wf(dirty_rects@),
            dirty_rects@ == fill_rects(old(dirty_rects)@, *actor, x_off as nat, 0),
            hits@ == hit_ids(w0, *materials, *actor, x_off as nat, 0),
        decreases actor.width - x_off,
    {
        let mut y_off: u8 = 0;
        while y_off < actor.height
            invariant
                forall|k: (i32, i32)| #[trigger] w0.contains_key(k) ==> w0[k].len() == 4096,
                chunk_manager.wf(),
                ids_known(*chunk_manager, *materials),
                actor_inner(*actor),
                materials.0.len() > 1,
                x_off < actor.width,
                y_off <= actor.height,
                chunk_manager.chunks@.dom() == old(chunk_manager).chunks@.dom(),
                chunk_manager.pos == old(chunk_manager).pos && chunk_manager.dt == old(chunk_manager).dt,
                w0 == old(chunk_manager).world(),
                chunk_manager.world() == filled(w0, *materials, |gx: int, gy: int| in_footprint_upto(*actor, gx, gy, x_off as int, y_off as int)),
                rects_wf(dirty_rects@),
                dirty_rects@ == fill_rects(old(dirty_rects)@, *actor, x_off as nat, y_off as nat),
                hits@ == hit_ids(w0, *materials, *actor, x_off as nat, y_off as nat),
            decreases actor.height - y_off,
        {
            let gx = actor.pos.x + x_off as i32;
            let gy = actor.pos.y + y_off as i32;
            let pos = global_to_chunk(ivec2(gx, gy));
            let ghost wb = chunk_manager.world();
            let ghost before = filled(w0, *materials, |gx: int, gy: int| in_footprint_upto(*actor, gx, gy, x_off as int, y_off as int));
            let ghost after = filled(w0, *materials, |gx: int, gy: int| in_footprint_upto(*actor, gx, gy, x_off as int, y_off + 1));
            let found = match chunk_manager.get_atom(&pos) {
                Some(atom) => Some(*atom),
                None => None,
            };
            proof {
                let k = crate::math::key_of(pos.chunk);
                let j = atom_index(pos);
                lemma_cell_of(gx as int, gy as int, k, j);
                if wb.contains_key(k) && j < wb[k].len() {
                    assert(wb[k][j] == w0[k][j]);
                }
            }
            if let Some(atom) = found {
                proof {
                    lemma_cell_of(gx as int, gy as int, crate::math::key_of(pos.chunk), atom_index(pos));
                    assert(chunk_manager.chunks@[crate::math::key_of(pos.chunk)].atoms@[atom_index(pos)] == atom);
                    assert(chunk_manager.world()[crate::math::key_of(pos.chunk)][atom_index(pos)] == atom);
                }
                if materials.get_from_atom(&atom).is_void() {
                    chunk_manager.set_atom(pos, Atom::object());
                    proof {
                        let k0 = crate::math::key_of(pos.chunk);
                        let w = chunk_manager.world();
                        assert forall|k: (i32, i32), j: int| w.contains_key(k) && 0 <= j < w[k].len()
                            implies (#[trigger] w[k][j]).id < materials.0.len() by {
                            if k != k0 || j != atom_index(pos) {
                                assert(wb[k][j] == w[k][j]);
                            }
                        }
                    }
                } else {
                    hits.push(atom.id);
                }
            }
            proof {
                let k = crate::math::key_of(pos.chunk);
                let j = atom_index(pos);
                lemma_cell_of(gx as int, gy as int, k, j);
                if wb.contains_key(k) && j < wb[k].len() && materials.of(wb[k][j].id).is_void_spec() {
                    assert(chunk_manager.world() == wb.insert(k, wb[k].update(j, crate::atom::object_atom())));
                } else {
                    assert(chunk_manager.world() == wb);
                }
                lemma_fill_step(w0, wb, chunk_manager.world(), *materials, *actor, x_off as int, y_off as int, pos);
            }
            update_dirty_rects_3x3(dirty_rects, pos);
            y_off += 1;
        }
        proof {
            let cur = filled(w0, *materials, |gx: int, gy: int| in_footprint_upto(*actor, gx, gy, x_off as int, actor.height as int));
            let nxt = filled(w0, *materials, |gx: int, gy: int| in_footprint_upto(*actor, gx, gy, x_off + 1, 0));
            assert forall|k: (i32, i32)| #[trigger] cur.contains_key(k) implies cur[k] =~= nxt[k] by {}
            assert(cur =~= nxt);
        }
        x_off += 1;
    }
    proof {
        let cur = filled(w0, *materials, |gx: int, gy: int| in_footprint_upto(*actor, gx, gy, actor.width as int, 0));
        let fin = filled(w0, *materials, |gx: int, gy: int| in_footprint(*actor, gx, gy));
        assert forall|k: (i32, i32)| #[trigger] cur.contains_key(k) implies cur[k] =~= fin[k] by {}
        assert(cur =~= fin);
    }
    hits
}

} // verus!

verus! {

/// One more cell of the actor emptied.
proof fn lemma_unfill_step(
    w0: Map<(i32, i32), Seq<Atom>>,
    wb: Map<(i32, i32), Seq<Atom>>,
    wa: Map<(i32, i32), Seq<Atom>>,
    materials: Materials,
    a: Actor,
    x: int,
    y: int,
    pos: ChunkPos,
)
    requires
        forall|k: (i32, i32)| #[trigger] w0.contains_key(k) ==> w0[k].len() == 4096,
        actor_inner(a),
        0 <= x < a.width,
        0 <= y < a.height,
        pos == chunk_pos_at(a.pos.x + x, a.pos.y + y),
        wb == unfilled(w0, materials, |gx: int, gy: int| in_footprint_upto(a, gx, gy, x, y)),
        ({
            let k = crate::math::key_of(pos.chunk);
            let j = atom_index(pos);
            wa == if wb.contains_key(k) && j < wb[k].len() && materials.of(wb[k][j].id).is_object_spec() {
                wb.insert(k, wb[k].update(j, crate::atom::default_atom()))
            } else {
                wb
            }
        }),
    ensures
        wa == unfilled(w0, materials, |gx: int, gy: int| in_footprint_upto(a, gx, gy, x, y + 1)),
{
    let target = unfilled(w0, materials, |gx: int, gy: int| in_footprint_upto(a, gx, gy, x, y + 1));
    let gx0 = a.pos.x + x;
    let gy0 = a.pos.y + y;
    assert forall|k: (i32, i32)| #[trigger] wa.contains_key(k) implies wa[k] =~= target[k] by {
        assert forall|j: int| 0 <= j < wa[k].len() implies wa[k][j] == target[k][j] by {
            lemma_cell_of(gx0, gy0, k, j);
        }
    }
    assert(wa =~= target);
}

/// Called after simulation, before actor update: the objects under the actor
/// become empty atoms again.
pub fn unfill_actor(chunk_manager: &mut ChunkManager, actor: &Actor, materials: &Materials)
    requires
        old(chunk_manager).wf(),
        ids_known(*old(chunk_manager), *materials),
        actor_inner(*actor),
        materials.0.len() > 0,
    ensures
        final(chunk_manager).wf(),
        ids_known(*final(chunk_manager), *materials),
        final(chunk_manager).world() == unfilled(
            old(chunk_manager).world(),
            *materials,
            |gx: int, gy: int| in_footprint(*actor, gx, gy),
        ),
        final(chunk_manager).chunks@.dom() == old(chunk_manager).chunks@.dom(),
        final(chunk_manager).pos == old(chunk_manager).pos,
        final(chunk_manager).dt == old(chunk_manager).dt,
{
    let ghost w0 = chunk_manager.world();
    proof {
        let start = unfilled(w0, *materials, |gx: int, gy: int| in_footprint_upto(*actor, gx, gy, 0, 0));
        assert forall|k: (i32, i32)| #[trigger] start.contains_key(k) implies start[k] =~= w0[k] by {}
        assert(start =~= w0);
    }
    let mut x_off: u8 = 0;
    while x_off < actor.width
        invariant
            forall|k: (i32, i32)| #[trigger] w0.contains_key(k) ==> w0[k].len() == 4096,
            chunk_manager.wf(),
            ids_known(*chunk_manager, *materials),
            actor_inner(*actor),
            materials.0.len() > 0,
            x_off <= actor.width,
            chunk_manager.chunks@.dom() == old(chunk_manager).chunks@.dom(),
            chunk_manager.pos == old(chunk_manager).pos && chunk_manager.dt == old(chunk_manager).dt,
            w0 == old(chunk_manager).world(),
            chunk_manager.world() == unfilled(w0, *materials, |gx: int, gy: int| in_footprint_upto(*actor, gx, gy, x_off as int, 0)),
        decreases actor.width - x_off,
    {
        let mut y_off: u8 = 0;
        while y_off < actor.height
            invariant
                forall|k: (i32, i32)| #[trigger] w0.contains_key(k) ==> w0[k].len() == 4096,
                chunk_manager.wf(),
                ids_known(*chunk_manager, *materials),
                actor_inner(*actor),
                materials.0.len() > 0,
                x_off < actor.width,
                y_off <= actor.height,
                chunk_manager.chunks@.dom() == old(chunk_manager).chunks@.dom(),
                chunk_manager.pos == old(chunk_manager).pos && chunk_manager.dt == old(chunk_manager).dt,
                w0 == old(chunk_manager).world(),
                chunk_manager.world() == unfilled(w0, *materials, |gx: int, gy: int| in_footprint_upto(*actor, gx, gy, x_off as int, y_off as int)),
            decreases actor.height - y_off,
        {
            let gx = actor.pos.x + x_off as i32;
            let gy = actor.pos.y + y_off as i32;
            let pos = global_to_chunk(ivec2(gx, gy));
            let ghost wb = chunk_manager.world();
            let found = match chunk_manager.get_atom(&pos) {
                Some(atom) => Some(*atom),
                None => None,
            };
            proof {
                let k = crate::math::key_of(pos.chunk);
                let j = atom_index(pos);
                lemma_cell_of(gx as int, gy as int, k, j);
                if wb.contains_key(k) && j < wb[k].len() {
                    assert(wb[k][j] == w0[k][j]);
                }
            }
            if let Some(atom) = found {
                proof {
                    lemma_cell_of(gx as int, gy as int, crate::math::key_of(pos.chunk), atom_index(pos));
                    assert(chunk_manager.chunks@[crate::math::key_of(pos.chunk)].atoms@[atom_index(pos)] == atom);
                    assert(chunk_manager.world()[crate::math::key_of(pos.chunk)][atom_index(pos)] == atom);
                }
                if materials.get_from_atom(&atom).is_object() {
                    chunk_manager.set_atom(pos, Atom::default());
                    proof {
                        let k0 = crate::math::key_of(pos.chunk);
                        let w = chunk_manager.world();
                        assert forall|k: (i32, i32), j: int| w.contains_key(k) && 0 <= j < w[k].len()
                            implies (#[trigger] w[k][j]).id < materials.0.len() by {
                            if k != k0 || j != atom_index(pos) {
                                assert(wb[k][j] == w[k][j]);
                            }
                        }
                    }
                }
            }
            proof {
                let k = crate::math::key_of(pos.chunk);
                let j = atom_index(pos);
                lemma_cell_of(gx as int, gy as int, k, j);
                if wb.contains_key(k) && j < wb[k].len() && materials.of(wb[k][j].id).is_object_spec() {
                    assert(chunk_manager.world() == wb.insert(k, wb[k].update(j, crate::atom::default_atom())));
                } else {
                    assert(chunk_manager.world() == wb);
                }
                lemma_unfill_step(w0, wb, chunk_manager.world(), *materials, *actor, x_off as int, y_off as int, pos);
            }
            y_off += 1;
        }
        proof {
            let cur = unfilled(w0, *materials, |gx: int, gy: int| in_footprint_upto(*actor, gx, gy, x_off as int, actor.height as int));
            let nxt = unfilled(w0, *materials, |gx: int, gy: int| in_footprint_upto(*actor, gx, gy, x_off + 1, 0));
            assert forall|k: (i32, i32)| #[trigger] cur.contains_key(k) implies cur[k] =~= nxt[k] by {}
            assert(cur =~= nxt);
        }
        x_off += 1;
    }
    proof {
        let cur = unfilled(w0, *materials, |gx: int, gy: int| in_footprint_upto(*actor, gx, gy, actor.width as int, 0));
        let fin = unfilled(w0, *materials, |gx: int, gy: int| in_footprint(*actor, gx, gy));
        assert forall|k: (i32, i32)| #[trigger] cur.contains_key(k) implies cur[k] =~= fin[k] by {}
        assert(cur =~= fin);
    }
}

/// Law: filling an actor and then emptying it (with nothing in between)
/// leaves every atom outside the actor as it was, and leaves empty atoms in
/// the cells under it that were void or objects; the other atoms under it
/// stay as they were.
pub proof fn law_fill_unfill(w: Map<(i32, i32), Seq<Atom>>, materials: Materials, a: Actor)
    requires
        materials.of(1).is_object_spec(),
    ensures
        unfilled(
            filled(w, materials, |gx: int, gy: int| in_footprint(a, gx, gy)),
            materials,
            |gx: int, gy: int| in_footprint(a, gx, gy),
        ) == Map::new(
            |k: (i32, i32)| w.contains_key(k),
            |k: (i32, i32)|
                Seq::new(
                    w[k].len(),
                    |j: int|
                        if in_footprint(a, cell_x(k, j), cell_y(k, j)) && (materials.of(w[k][j].id).is_void_spec()
                            || materials.of(w[k][j].id).is_object_spec()) {
                            crate::atom::default_atom()
                        } else {
                            w[k][j]
                        },
                ),
        ),
{
    let l = unfilled(
        filled(w, materials, |gx: int, gy: int| in_footprint(a, gx, gy)),
        materials,
        |gx: int, gy: int| in_footprint(a, gx, gy),
    );
    let r = Map::new(
        |k: (i32, i32)| w.contains_key(k),
        |k: (i32, i32)|
            Seq::new(
                w[k].len(),
                |j: int|
                    if in_footprint(a, cell_x(k, j), cell_y(k, j)) && (materials.of(w[k][j].id).is_void_spec()
                        || materials.of(w[k][j].id).is_object_spec()) {
                        crate::atom::default_atom()
                    } else {
                        w[k][j]
                    },
            ),
    );
    assert forall|k: (i32, i32)| #[trigger] l.contains_key(k) implies l[k] =~= r[k] by {}
    assert(l =~= r);
}

} // verus!
