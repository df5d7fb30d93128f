use vstd::prelude::*;
use crate::atom::Atom;
use crate::chunk_manager::{ChunkManager, DirtyRects, atom_index};
use crate::manager_api::{ChunkPos, chunk_pos_at, global_coord_ok, global_to_chunk, rects_wf, rect_wf, with_point, update_dirty_rects, lemma_with_point_wf};
use crate::math::{IVec2, UVec2, URect};

verus! {

/// Marks the debug images that are deleted every frame.
pub struct DeleteImage;

/// The global position `p` lies in a loaded chunk of the world `w`.
pub open spec fn loaded_in(w: Map<(i32, i32), Seq<Atom>>, p: IVec2) -> bool {
    let cp = chunk_pos_at(p.x as int, p.y as int);
    let k = crate::math::key_of(cp.chunk);
    w.contains_key(k) && atom_index(cp) < w[k].len()
}

/// Some position of `path` is the cell `j` of chunk `k`.
pub open spec fn on_path(path: Seq<IVec2>, k: (i32, i32), j: int) -> bool {
    exists|i: int|
        0 <= i < path.len() && {
            let cp = chunk_pos_at((#[trigger] path[i]).x as int, path[i].y as int);
            crate::math::key_of(cp.chunk) == k && atom_index(cp) == j
        }
}

/// The world once `atom` is painted at every loaded position of `path`.
pub open spec fn painted(w: Map<(i32, i32), Seq<Atom>>, atom: Atom, path: Seq<IVec2>) -> Map<(i32, i32), Seq<Atom>> {
    Map::new(
        |k: (i32, i32)| w.contains_key(k),
        |k: (i32, i32)| Seq::new(w[k].len(), |j: int| if on_path(path, k, j) { atom } else { w[k][j] }),
    )
}

/// The rectangles once the loaded positions among the first `n` of `path`
/// are marked, one after the other.
pub open spec fn paint_rects(
    m: Map<(i32, i32), URect>,
    w: Map<(i32, i32), Seq<Atom>>,
    path: Seq<IVec2>,
    n: nat,
) -> Map<(i32, i32), URect>
    decreases n,
{
    if n == 0 {
        m
    } else {
        let prev = paint_rects(m, w, path, (n - 1) as nat);
        let p = path[n - 1];
        if loaded_in(w, p) {
            with_point(prev, chunk_pos_at(p.x as int, p.y as int))
        } else {
            prev
        }
    }
}

/// Paints `atom` at every position of `path` (the mouse's trail) that lies
/// in a loaded chunk, and marks those positions in the update and render
/// rectangles.
pub fn paint(chunk_manager: &mut ChunkManager, dirty_rects: &mut DirtyRects, atom: Atom, path: &Vec<IVec2>)
    requires
        old(chunk_manager).wf(),
        old(dirty_rects).wf(),
        forall|i: int|
            0 <= i < path@.len() ==> global_coord_ok((#[trigger] path@[i]).x as int) && global_coord_ok(
                path@[i].y as int,
            ),
    ensures
        final(chunk_manager).world() == painted(old(chunk_manager).world(), atom, path@),
        final(dirty_rects).current@ == paint_rects(
            old(dirty_rects).current@,
            old(chunk_manager).world(),
            path@,
            path@.len() as nat,
        ),
        final(dirty_rects).render@ == paint_rects(
            old(dirty_rects).render@,
            old(chunk_manager).world(),
            path@,
            path@.len() as nat,
        ),
        final(dirty_rects).new@ == old(dirty_rects).new@,
        final(dirty_rects).wf(),
        final(chunk_manager).wf(),
        final(chunk_manager).chunks@.dom() == old(chunk_manager).chunks@.dom(),
        final(chunk_manager).pos == old(chunk_manager).pos,
        final(chunk_manager).dt == old(chunk_manager).dt,
{
    let ghost w0 = chunk_manager.world();
    proof {
        let start = painted(w0, atom, path@.subrange(0, 0));
        assert forall|k: (i32, i32)| #[trigger] start.contains_key(k) implies start[k] =~= w0[k] by {
            assert forall|j: int| 0 <= j < w0[k].len() implies start[k][j] == w0[k][j] by {
                assert(!on_path(path@.subrange(0, 0), k, j));
            }
        }
        assert(start =~= w0);
    }
    let mut i: usize = 0;
    while i < path.len()
        invariant
            i <= path@.len(),
            w0 == old(chunk_manager).world(),
            forall|k: int|
                0 <= k < path@.len() ==> global_coord_ok((#[trigger] path@[k]).x as int) && global_coord_ok(
                    path@[k].y as int,
                ),
            chunk_manager.wf(),
            dirty_rects.wf(),
            chunk_manager.chunks@.dom() == old(chunk_manager).chunks@.dom(),
            chunk_manager.pos == old(chunk_manager).pos,
            chunk_manager.dt == old(chunk_manager).dt,
            forall|k: (i32, i32)| #[trigger] chunk_manager.world().contains_key(k) ==> chunk_manager.world()[k].len() == w0[k].len(),
            chunk_manager.world() == painted(w0, atom, path@.subrange(0, i as int)),
            dirty_rects.current@ == paint_rects(old(dirty_rects).current@, w0, path@, i as nat),
            dirty_rects.render@ == paint_rects(old(dirty_rects).render@, w0, path@, i as nat),
            dirty_rects.new@ == old(dirty_rects).new@,
        decreases path@.len() - i,
    {
        let v = path[i];
        let pos = global_to_chunk(v);
        let ghost before = chunk_manager.world();
        let k0 = crate::math::key(pos.chunk);
        let loaded = match chunk_manager.get_atom(&pos) {
            Some(_) => true,
            None => false,
        };
        proof {
            assert(loaded == loaded_in(w0, v)) by {
                if chunk_manager.chunks@.contains_key(k0) {
                    assert(chunk_manager.world()[k0].len() == chunk_manager.chunks@[k0].atoms@.len());
                }
            }
        }
        if loaded {
            chunk_manager.set_atom(pos, atom);
            proof {
                lemma_with_point_wf(dirty_rects.current@, pos);
                lemma_with_point_wf(dirty_rects.render@, pos);
            }
            update_dirty_rects(&mut dirty_rects.current, pos);
            update_dirty_rects(&mut dirty_rects.render, pos);
        }
        proof {
            let s_old = path@.subrange(0, i as int);
            let s_new = path@.subrange(0, i + 1);
            let j0 = atom_index(pos);
            assert forall|k: (i32, i32), j: int| #[trigger] on_path(s_new, k, j) <==> (on_path(s_old, k, j) || (k == k0 && j
                == j0)) by {
                if on_path(s_new, k, j) {
                    let a = choose|a: int|
                        0 <= a < s_new.len() && {
                            let cp = chunk_pos_at((#[trigger] s_new[a]).x as int, s_new[a].y as int);
                            crate::math::key_of(cp.chunk) == k && atom_index(cp) == j
                        };
                    if a < i {
                        assert(s_old[a] == s_new[a]);
                    }
                }
                if on_path(s_old, k, j) {
                    let a = choose|a: int|
                        0 <= a < s_old.len() && {
                            let cp = chunk_pos_at((#[trigger] s_old[a]).x as int, s_old[a].y as int);
                            crate::math::key_of(cp.chunk) == k && atom_index(cp) == j
                        };
                    assert(s_new[a] == s_old[a]);
                }
                if k == k0 && j == j0 {
                    assert(s_new[i as int] == v);
                }
            }
            let target = painted(w0, atom, s_new);
            assert forall|k: (i32, i32)| #[trigger] target.contains_key(k) implies chunk_manager.world().contains_key(k)
                && chunk_manager.world()[k] =~= target[k] by {
                assert forall|j: int| 0 <= j < w0[k].len() implies chunk_manager.world()[k][j] == target[k][j] by {
                    assert(on_path(s_new, k, j) == (on_path(s_old, k, j) || (k == k0 && j == j0)));
                    if k == k0 && j == j0 && !loaded {
                        assert(!loaded_in(w0, v));
                        assert(false);
                    }
                }
            }
            assert(chunk_manager.world().dom() =~= w0.dom());
            assert(target.dom() =~= w0.dom());
            assert(chunk_manager.world() =~= target);
            assert(path@[i as int] == v);
        }
        i += 1;
    }
    proof {
        assert(path@.subrange(0, path@.len() as int) =~= path@);
    }
}

/// Where the debug gizmo of a dirty rectangle goes: its top left corner in
/// world coordinates (y going up), and its size in atoms.
pub open spec fn spec_dirty_rect_gizmo(chunk_pos: IVec2, rect: URect) -> (IVec2, UVec2) {
    (
        IVec2 { x: (chunk_pos.x * 64 + rect.min.x) as i32, y: (-(chunk_pos.y * 64) - rect.min.y) as i32 },
        UVec2 { x: (rect.max.x - rect.min.x + 1) as u32, y: (rect.max.y - rect.min.y + 1) as u32 },
    )
}

/// Where the debug gizmo of the dirty rectangle of a chunk goes: its top
/// left corner in world coordinates (y going up), and its size in atoms.
pub fn dirty_rect_gizmo(chunk_pos: IVec2, rect: URect) -> (g: (IVec2, UVec2))
    requires
        rect_wf(rect),
        -33554430 <= chunk_pos.x <= 33554430,
        -33554430 <= chunk_pos.y <= 33554430,
    ensures
        g == spec_dirty_rect_gizmo(chunk_pos, rect),
{
    let size = UVec2::new(rect.max.x - rect.min.x + 1, rect.max.y - rect.min.y + 1);
    let position = IVec2::new(
        chunk_pos.x * 64 + rect.min.x as i32,
        -(chunk_pos.y * 64) - rect.min.y as i32,
    );
    (position, size)
}

} // verus!
