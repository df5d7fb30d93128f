use std::collections::BTreeMap;

use astratomic::atom::Atom;
use astratomic::chunk::Chunk;
use astratomic::chunk_group::{global_to_local, local_to_global, ChunkGroup};
use astratomic::chunk_manager::{
    apply_dirty_updates, apply_render_updates, is_update_center, manager_diff, move_steps, return_group,
    take_group, update_centers, ChunkManager, DirtyRects, HasCollider, MoveDir,
};
use astratomic::manager_api::{
    extend_rect_if_needed, global_to_chunk, rand_range, update_dirty_rects, update_dirty_rects_3x3, ChunkPos,
    DeferredDirtyRectUpdate, D1,
};
use astratomic::materials::{AtomState, Material, Materials};
use astratomic::math::{ivec2, uvec2, IRect, IVec2, URect};

fn marked(id: u8, tag: u8) -> Atom {
    Atom { id, color: [tag, tag, tag, 255], ..Atom::default() }
}

fn tagged_chunk(tag: u8) -> Chunk {
    let mut c = Chunk::new_empty();
    for (i, a) in c.atoms.iter_mut().enumerate() {
        *a = marked((i % 7) as u8, tag);
    }
    c
}

#[test]
fn global_to_chunk_positive() {
    let p = global_to_chunk(ivec2(70, 130));
    assert_eq!(p, ChunkPos::new(uvec2(6, 2), ivec2(1, 2)));
}

#[test]
fn global_to_chunk_negative() {
    assert_eq!(global_to_chunk(ivec2(-1, -1)), ChunkPos::new(uvec2(63, 63), ivec2(-1, -1)));
    // A whole chunk to the left is still the chunk -1, at its first atom.
    assert_eq!(global_to_chunk(ivec2(-64, -65)), ChunkPos::new(uvec2(0, 63), ivec2(-1, -2)));
    assert_eq!(global_to_chunk(ivec2(0, 63)), ChunkPos::new(uvec2(0, 63), ivec2(0, 0)));
}

#[test]
fn chunk_global_roundtrip_values() {
    for (x, y) in [(-200, 5), (0, 0), (63, 64), (-64, -128), (1000, -1000)] {
        let cp = global_to_chunk(ivec2(x, y));
        assert_eq!(cp.to_global(), ivec2(x, y));
    }
    let cp = ChunkPos::new(uvec2(3, 4), ivec2(-1, 2));
    assert_eq!(cp.to_global(), ivec2(-61, 132));
    assert_eq!(global_to_chunk(cp.to_global()), cp);
}

#[test]
fn d1_index() {
    assert_eq!(uvec2(5, 2).d1(), 2 * 64 + 5);
    assert_eq!(ivec2(63, 63).d1(), 4095);
}

#[test]
fn extend_rect_grows_and_clamps() {
    let mut r = URect::new(10, 10, 20, 20);
    extend_rect_if_needed(&mut r, &uvec2(5, 30));
    assert_eq!(r, URect::new(5, 10, 20, 30));
    extend_rect_if_needed(&mut r, &uvec2(70, 0));
    assert_eq!(r, URect::new(5, 0, 63, 30));
    let before = r;
    extend_rect_if_needed(&mut r, &uvec2(12, 12));
    assert_eq!(r, before);
}

#[test]
fn update_dirty_rects_marks_point() {
    let mut m = BTreeMap::new();
    update_dirty_rects(&mut m, ChunkPos::new(uvec2(5, 6), ivec2(1, 1)));
    assert_eq!(m.len(), 1);
    assert_eq!(m[&(1, 1)], URect::new(5, 6, 5, 6));
    update_dirty_rects(&mut m, ChunkPos::new(uvec2(9, 2), ivec2(1, 1)));
    assert_eq!(m[&(1, 1)], URect::new(5, 2, 9, 6));
    assert!(m[&(1, 1)].contains(uvec2(5, 6)));
}

#[test]
fn update_dirty_rects_3x3_at_corner() {
    let mut m = BTreeMap::new();
    update_dirty_rects_3x3(&mut m, ChunkPos::new(uvec2(0, 0), ivec2(0, 0)));
    assert_eq!(m.len(), 4);
    assert_eq!(m[&(-1, -1)], URect::new(63, 63, 63, 63));
    assert_eq!(m[&(0, -1)], URect::new(0, 63, 1, 63));
    assert_eq!(m[&(-1, 0)], URect::new(63, 0, 63, 1));
    assert_eq!(m[&(0, 0)], URect::new(0, 0, 1, 1));
}

#[test]
fn update_dirty_rects_3x3_inside() {
    let mut m = BTreeMap::new();
    update_dirty_rects_3x3(&mut m, ChunkPos::new(uvec2(10, 20), ivec2(-3, 4)));
    assert_eq!(m.len(), 1);
    assert_eq!(m[&(-3, 4)], URect::new(9, 19, 11, 21));
    for dx in 9..=11 {
        for dy in 19..=21 {
            assert!(m[&(-3, 4)].contains(uvec2(dx, dy)));
        }
    }
}

#[test]
fn rand_range_is_permutation() {
    let mut r = rand_range(0..5);
    r.sort();
    assert_eq!(r, vec![0, 1, 2, 3, 4]);
    let mut r = rand_range(-3..2);
    r.sort();
    assert_eq!(r, vec![-3, -2, -1, 0, 1]);
    assert!(rand_range(5..3).is_empty());
}

#[test]
fn local_global_roundtrip_values() {
    assert_eq!(global_to_local(ivec2(70, 130)), (ivec2(6, 2), 7));
    assert_eq!(local_to_global((ivec2(6, 2), 7)), ivec2(70, 130));
    assert_eq!(global_to_local(ivec2(64, 64)), (ivec2(0, 0), 4));
    for (x, y) in [(0, 0), (191, 191), (100, 33), (32, 150)] {
        assert_eq!(local_to_global(global_to_local(ivec2(x, y))), ivec2(x, y));
    }
}

#[test]
fn group_to_chunk_and_surrounding() {
    assert_eq!(ChunkGroup::group_to_chunk(ivec2(5, 5), 0), ivec2(4, 4));
    assert_eq!(ChunkGroup::group_to_chunk(ivec2(5, 5), 4), ivec2(5, 5));
    assert_eq!(ChunkGroup::group_to_chunk(ivec2(5, 5), 8), ivec2(6, 6));
    assert_eq!(ChunkGroup::group_to_chunk(ivec2(5, 5), 3), ivec2(4, 5));
    let expected = [(0, 0), (1, 0), (2, 1), (3, 1), (5, 2), (6, 2), (7, 3), (8, 3)];
    for (i, s) in expected {
        assert_eq!(ChunkGroup::surrounding_idx(i), s);
    }
}

#[test]
fn manager_get_set_atom() {
    let mut cm = ChunkManager { chunks: BTreeMap::new(), pos: ivec2(0, 0), dt: 0 };
    cm.insert_chunk(ivec2(1, -1), Chunk::new_empty());
    let cp = ChunkPos::new(uvec2(3, 4), ivec2(1, -1));
    assert_eq!(cm.get_atom(&cp), Some(&Atom::default()));
    let rock = marked(8, 9);
    assert!(cm.set_atom(cp, rock));
    assert_eq!(cm.get_atom(&cp), Some(&rock));
    assert_eq!(cm.chunks[&(1, -1)].atoms[4 * 64 + 3], rock);
    let missing = ChunkPos::new(uvec2(3, 4), ivec2(7, 7));
    assert_eq!(cm.get_atom(&missing), None);
    assert!(!cm.set_atom(missing, rock));
    assert_eq!(cm.chunks.len(), 1);
}

#[test]
fn take_return_group_roundtrip() {
    let mut chunks = BTreeMap::new();
    let mut tag = 0u8;
    for x in 0..3 {
        for y in 0..3 {
            chunks.insert((x, y), tagged_chunk(tag));
            tag += 1;
        }
    }
    let before: Vec<((i32, i32), Vec<Atom>)> = chunks.iter().map(|(k, c)| (*k, c.atoms.clone())).collect();
    let g = take_group(&mut chunks, ivec2(1, 1));
    assert_eq!(chunks.len(), 8);
    assert_eq!(g.center, before[4].1);
    // The group reads the atoms of the neighbours.
    assert_eq!(g.get_global(ivec2(40, 40)), Some(&before[0].1[40 * 64 + 40]));
    assert_eq!(g.get_global(ivec2(70, 40)), Some(&before[3].1[40 * 64 + 6]));
    assert_eq!(g.get_global(ivec2(150, 100)), Some(&before[7].1[36 * 64 + 22]));
    return_group(&mut chunks, g);
    let after: Vec<((i32, i32), Vec<Atom>)> = chunks.iter().map(|(k, c)| (*k, c.atoms.clone())).collect();
    assert_eq!(before, after);
}

#[test]
fn group_writes_reach_chunks() {
    let mut chunks = BTreeMap::new();
    for x in 0..3 {
        for y in 0..3 {
            chunks.insert((x, y), Chunk::new_empty());
        }
    }
    let mut g = take_group(&mut chunks, ivec2(1, 1));
    let sand = marked(2, 1);
    // Global (40, 100) lies in the left chunk (0, 1), at (40, 36).
    assert!(g.set_global(ivec2(40, 100), sand));
    assert_eq!(g.get_global(ivec2(40, 100)), Some(&sand));
    return_group(&mut chunks, g);
    assert_eq!(chunks[&(0, 1)].atoms[36 * 64 + 40], sand);
}

#[test]
fn group_without_neighbours() {
    let mut chunks = BTreeMap::new();
    chunks.insert((0, 0), Chunk::new_empty());
    let mut g = take_group(&mut chunks, ivec2(0, 0));
    assert!(chunks.is_empty());
    assert_eq!(g.get_global(ivec2(10, 10)), None);
    assert!(!g.set_global(ivec2(10, 10), marked(2, 0)));
    assert!(g.set_global(ivec2(64, 64), marked(2, 0)));
    return_group(&mut chunks, g);
    assert_eq!(chunks.len(), 1);
    assert_eq!(chunks[&(0, 0)].atoms[0], marked(2, 0));
}

#[test]
fn dirty_rects_swap_and_clear() {
    let mut d = DirtyRects { current: BTreeMap::new(), new: BTreeMap::new(), render: BTreeMap::new() };
    d.new.insert((1, 2), URect::new(1, 1, 2, 2));
    d.render.insert((0, 0), URect::new(0, 0, 0, 0));
    d.swap();
    assert_eq!(d.current.len(), 1);
    assert!(d.new.is_empty());
    d.clear_render();
    assert!(d.render.is_empty());
    assert_eq!(d.current[&(1, 2)], URect::new(1, 1, 2, 2));
}

#[test]
fn deferred_updates_applied() {
    let msgs = vec![
        DeferredDirtyRectUpdate { chunk_pos: ChunkPos::new(uvec2(10, 10), ivec2(0, 0)), awake_surrouding: true },
        DeferredDirtyRectUpdate { chunk_pos: ChunkPos::new(uvec2(30, 5), ivec2(0, 0)), awake_surrouding: false },
    ];
    let mut m = BTreeMap::new();
    apply_dirty_updates(&mut m, &msgs);
    assert_eq!(m[&(0, 0)], URect::new(9, 5, 30, 11));
    let mut r = BTreeMap::new();
    apply_render_updates(&mut r, &msgs);
    assert_eq!(r[&(0, 0)], URect::new(10, 5, 30, 10));
}

#[test]
fn update_center_checker() {
    assert!(is_update_center(ivec2(2, 4), (0, 0), ivec2(0, 0)));
    assert!(!is_update_center(ivec2(1, 4), (0, 0), ivec2(0, 0)));
    assert!(is_update_center(ivec2(1, 0), (1, 0), ivec2(0, 0)));
    assert!(is_update_center(ivec2(1, 0), (0, 0), ivec2(-1, 0)));
    assert!(is_update_center(ivec2(-1, -3), (1, 1), ivec2(0, 0)));
}

#[test]
fn update_centers_of_step() {
    let mut chunks = BTreeMap::new();
    let mut rects = BTreeMap::new();
    for x in 0..4 {
        for y in 0..4 {
            chunks.insert((x, y), Chunk::new_empty());
            if (x, y) != (2, 2) {
                rects.insert((x, y), URect::new(0, 0, 63, 63));
            }
        }
    }
    rects.insert((10, 10), URect::new(0, 0, 0, 0));
    let mut c = update_centers(&chunks, &rects, (0, 0), ivec2(0, 0));
    c.sort_by_key(|p| (p.x, p.y));
    assert_eq!(c, vec![ivec2(0, 0), ivec2(0, 2), ivec2(2, 0)]);
    let mut c = update_centers(&chunks, &rects, (1, 1), ivec2(0, 0));
    c.sort_by_key(|p| (p.x, p.y));
    assert_eq!(c, vec![ivec2(1, 1), ivec2(1, 3), ivec2(3, 1), ivec2(3, 3)]);
}

#[test]
fn manager_diff_values() {
    // The player at the middle of the loaded area.
    assert_eq!(manager_diff(ivec2(16 * 64 + 5, 9 * 64), ivec2(0, 0)), ivec2(0, 0));
    assert_eq!(manager_diff(ivec2(100, 200), ivec2(0, 0)), ivec2(1 - 16, 3 - 9));
    // A negative coordinate is shifted by a chunk before the division.
    assert_eq!(manager_diff(ivec2(-64, -1), ivec2(0, 0)), ivec2(-2 - 16, -1 - 9));
}

#[test]
fn move_steps_values() {
    assert_eq!(move_steps(ivec2(-2, 1)), vec![MoveDir::X(-1), MoveDir::X(-1), MoveDir::Y(1)]);
    assert_eq!(move_steps(ivec2(0, -3)), vec![MoveDir::Y(-1), MoveDir::Y(-1), MoveDir::Y(-1)]);
    assert!(move_steps(ivec2(0, 0)).is_empty());
}

#[test]
fn moves_center_the_player() {
    let player = ivec2(5000, -3000);
    let mut pos = ivec2(-16, -16);
    for step in move_steps(manager_diff(player, pos)) {
        match step {
            MoveDir::X(d) => pos.x += d,
            MoveDir::Y(d) => pos.y += d,
        }
    }
    assert_eq!(manager_diff(player, pos), ivec2(0, 0));
}

#[test]
fn move_manager_saves_and_loads() {
    let mut cm = ChunkManager { chunks: BTreeMap::new(), pos: ivec2(0, 0), dt: 0 };
    let mut tag = 0u8;
    for x in 0..32 {
        for y in 0..18 {
            cm.insert_chunk(ivec2(x, y), tagged_chunk(tag));
            tag = tag.wrapping_add(1);
        }
    }
    let first_column: Vec<Vec<Atom>> = (0..18).map(|y| cm.chunks[&(0, y)].atoms.clone()).collect();
    let mut file = BTreeMap::new();
    let generate = cm.move_manager(&mut file, MoveDir::X(1));
    assert_eq!(cm.pos, ivec2(1, 0));
    assert_eq!(generate, (0..18).map(|y| ivec2(32, y)).collect::<Vec<_>>());
    assert_eq!(file.len(), 18);
    assert_eq!(cm.chunks.len(), 32 * 18 - 18);
    assert!(!cm.chunks.contains_key(&(0, 5)));
    for p in generate {
        cm.insert_chunk(p, Chunk::new_empty());
    }
    let generate = cm.move_manager(&mut file, MoveDir::X(-1));
    assert!(generate.is_empty());
    assert_eq!(cm.pos, ivec2(0, 0));
    assert_eq!(cm.chunks.len(), 32 * 18);
    for y in 0..18 {
        assert_eq!(cm.chunks[&(0, y)].atoms, first_column[y as usize]);
    }
    assert!(file.contains_key(&(32, 0)));
}

#[test]
fn move_manager_along_y() {
    let mut cm = ChunkManager { chunks: BTreeMap::new(), pos: ivec2(0, 0), dt: 0 };
    for x in 0..32 {
        for y in 0..18 {
            cm.insert_chunk(ivec2(x, y), Chunk::new_empty());
        }
    }
    let mut file = BTreeMap::new();
    file.insert((3, -1), tagged_chunk(77));
    let generate = cm.move_manager(&mut file, MoveDir::Y(-1));
    assert_eq!(cm.pos, ivec2(0, -1));
    // The row y = 17 is left behind; the row y = -1 comes in, one chunk from the saved world.
    assert!(file.contains_key(&(0, 17)));
    assert!(!cm.chunks.contains_key(&(0, 17)));
    assert_eq!(cm.chunks[&(3, -1)].atoms, tagged_chunk(77).atoms);
    assert_eq!(generate.len(), 31);
    assert!(!generate.contains(&ivec2(3, -1)));
    assert_eq!(generate[0], ivec2(0, -1));
}

#[test]
fn tick_wraps() {
    let mut cm = ChunkManager { chunks: BTreeMap::new(), pos: ivec2(0, 0), dt: 254 };
    assert_eq!(cm.tick(), 255);
    assert_eq!(cm.tick(), 0);
    assert_eq!(cm.dt, 0);
}

#[test]
fn has_collider_covers() {
    let h = HasCollider(vec![IRect::new(0, 0, 2, 2), IRect::new(10, -5, 8, -3)]);
    assert!(h.covers(ivec2(1, 1)));
    assert!(h.covers(ivec2(2, 2)));
    assert!(h.covers(ivec2(9, -4)));
    assert!(!h.covers(ivec2(3, 0)));
    assert!(!HasCollider(vec![]).covers(ivec2(0, 0)));
}

#[test]
fn chunk_copy_and_solid_mask() {
    let mut c = Chunk::new_empty();
    c.atoms[5] = marked(8, 1);
    let copy = c.copied();
    assert_eq!(copy.atoms, c.atoms);
    let materials = Materials(
        (0..10)
            .map(|i| Material {
                flow: 0,
                default_state: if i == 8 { AtomState::Solid } else { AtomState::Void },
            })
            .collect(),
    );
    let mask = c.get_values(&materials);
    assert_eq!(mask.len(), 4096);
    assert!(mask[5]);
    assert_eq!(mask.iter().filter(|b| **b).count(), 1);
    let _ = IVec2::new(0, 0);
}

#[test]
fn chunk_image_bytes() {
    let mut c = Chunk::new_empty();
    c.atoms[5] = Atom { color: [1, 2, 3, 4], ..Atom::default() };
    c.atoms[64 + 6] = Atom { color: [9, 8, 7, 6], ..Atom::default() };
    let mut data = vec![255u8; 4 * 4096];
    c.update_image_positions(&mut data, &vec![ivec2(6, 1)]);
    assert_eq!(&data[(64 + 6) * 4..(64 + 6) * 4 + 4], &[9, 8, 7, 6]);
    assert_eq!(&data[20..24], &[255, 255, 255, 255]);
    c.update_all(&mut data);
    assert_eq!(&data[20..24], &[1, 2, 3, 4]);
    assert_eq!(&data[0..4], &[0, 0, 0, 0]);
    let r = c.rect_data(&URect::new(5, 0, 6, 1));
    assert_eq!(r, vec![1, 2, 3, 4, 0, 0, 0, 0, 0, 0, 0, 0, 9, 8, 7, 6]);
}
