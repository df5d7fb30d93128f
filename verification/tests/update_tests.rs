use std::collections::BTreeMap;

use astratomic::atom::Atom;
use astratomic::atom_update::{atom_gravity, update_atom_along, AtomStep, begin_atom_update, finish_atom_update, insert_pos, update_liquid, vec_contains, UpdateKind};
use astratomic::chunk::Chunk;
use astratomic::chunk_manager::{return_group, take_group};
use astratomic::group_api::{
    atom_of, dirty_msg_for, down_neigh, dt_updatable, get_material, get_moving, get_speed, get_vel, put,
    set_speed, set_vel, side_neigh, swap, swapable, UpdateChunksType,
};
use astratomic::manager_api::{ChunkPos, DeferredDirtyRectUpdate};
use astratomic::materials::{AtomState, Material, Materials};
use astratomic::math::{ivec2, uvec2, IVec2};

fn materials() -> Materials {
    let state = |i: u8| match i {
        0 => AtomState::Void,
        1 => AtomState::Object,
        2 | 4 | 7 => AtomState::Powder,
        3 | 5 | 9 => AtomState::Liquid,
        _ => AtomState::Solid,
    };
    Materials((0..10u8).map(|i| Material { flow: if i == 3 { 5 } else { 0 }, default_state: state(i) }).collect())
}

fn atom(id: u8) -> Atom {
    Atom { id, ..Atom::default() }
}

fn group() -> UpdateChunksType {
    let mut chunks = BTreeMap::new();
    for x in 0..3 {
        for y in 0..3 {
            chunks.insert((x, y), Chunk::new_empty());
        }
    }
    let group = take_group(&mut chunks, ivec2(1, 1));
    UpdateChunksType { group, dirty_update_rects: vec![], dirty_render_rects: vec![], materials: materials() }
}

#[test]
fn read_and_write_atoms() {
    let mut c = group();
    let p = ivec2(100, 100);
    assert_eq!(atom_of(&c, p), Atom::default());
    assert!(get_material(&c, p).is_void());
    put(&mut c, p, atom(2));
    assert_eq!(atom_of(&c, p), atom(2));
    assert!(get_material(&c, p).is_powder());
    set_speed(&mut c, p, 7);
    assert_eq!(get_speed(&c, p), 7);
    set_vel(&mut c, p, ivec2(-3, 4));
    assert_eq!(get_vel(&c, p), ivec2(-3, 4));
    assert_eq!(atom_of(&c, p).speed, (-3, 4));
    assert!(!get_moving(&c, p));
    assert_eq!(atom_of(&c, ivec2(101, 100)), Atom::default());
}

#[test]
fn updatable_at_frame() {
    let mut c = group();
    let p = ivec2(80, 80);
    put(&mut c, p, Atom { id: 2, updated_at: 5, ..Atom::default() });
    assert!(!dt_updatable(&c, p, 5));
    assert!(dt_updatable(&c, p, 6));
    // A void atom may always be updated.
    put(&mut c, p, Atom { id: 0, updated_at: 5, ..Atom::default() });
    assert!(dt_updatable(&c, p, 5));
}

#[test]
fn swap_exchanges_and_renders() {
    let mut c = group();
    let a = ivec2(70, 70);
    let b = ivec2(70, 71);
    put(&mut c, a, atom(2));
    swap(&mut c, a, b, 9);
    assert_eq!(atom_of(&c, a), Atom { updated_at: 9, ..Atom::default() });
    assert_eq!(atom_of(&c, b), Atom { updated_at: 9, ..atom(2) });
    assert_eq!(c.dirty_render_rects.len(), 2);
    assert_eq!(c.dirty_render_rects[0].chunk_pos, ChunkPos::new(uvec2(6, 6), ivec2(1, 1)));
    assert_eq!(c.dirty_render_rects[1].chunk_pos, ChunkPos::new(uvec2(6, 7), ivec2(1, 1)));
    assert!(!c.dirty_render_rects[0].awake_surrouding);
}

#[test]
fn swap_with_object_leaves_void() {
    let mut c = group();
    let a = ivec2(90, 90);
    let b = ivec2(90, 91);
    put(&mut c, a, atom(3));
    put(&mut c, b, atom(1));
    swap(&mut c, a, b, 1);
    assert_eq!(atom_of(&c, a), Atom { updated_at: 1, ..Atom::default() });
    assert_eq!(atom_of(&c, b), Atom { updated_at: 1, ..atom(3) });
}

#[test]
fn swapable_cases() {
    let mut c = group();
    let sand = Material { flow: 0, default_state: AtomState::Powder };
    let water = Material { flow: 5, default_state: AtomState::Liquid };
    let p = ivec2(100, 101);
    assert!(swapable(&c, p, &[], sand, 0));
    put(&mut c, p, atom(8));
    assert!(!swapable(&c, p, &[], sand, 0));
    // A chance of a thousand in a thousand always gives way, unless updated at this frame.
    assert!(swapable(&c, p, &[(8, 1000)], sand, 1));
    assert!(!swapable(&c, p, &[(8, 0)], sand, 1));
    put(&mut c, p, Atom { id: 8, updated_at: 3, ..Atom::default() });
    assert!(!swapable(&c, p, &[(8, 1000)], sand, 3));
    put(&mut c, p, atom(1));
    assert!(!swapable(&c, p, &[], sand, 0));
    assert!(swapable(&c, p, &[], water, 0));
    // Outside the loaded part of the group.
    let mut chunks = BTreeMap::new();
    chunks.insert((0, 0), Chunk::new_empty());
    let g = take_group(&mut chunks, ivec2(0, 0));
    let lone = UpdateChunksType { group: g, dirty_update_rects: vec![], dirty_render_rects: vec![], materials: materials() };
    assert!(!swapable(&lone, ivec2(63, 100), &[], sand, 0));
}

#[test]
fn neighbours_of_powder() {
    let mut c = group();
    let p = ivec2(100, 100);
    put(&mut c, p, atom(2));
    put(&mut c, ivec2(100, 101), atom(8));
    let n = down_neigh(&c, p, &[], 0);
    assert_eq!(n[0], (false, ivec2(0, 1)));
    // A powder that is not moving only looks straight down.
    assert_eq!(n[1], (false, ivec2(0, 0)));
    assert_eq!(n[2], (false, ivec2(0, 0)));
    put(&mut c, p, Atom { moving: true, ..atom(2) });
    let n = down_neigh(&c, p, &[], 0);
    let mut offs = vec![n[1].1, n[2].1];
    offs.sort_by_key(|v| v.x);
    assert_eq!(offs, vec![ivec2(-1, 1), ivec2(1, 1)]);
    assert!(n[1].0 && n[2].0);
    let s = side_neigh(&c, p, &[], 0);
    let mut offs = vec![s[0].1, s[1].1];
    offs.sort_by_key(|v| v.x);
    assert_eq!(offs, vec![ivec2(-1, 0), ivec2(1, 0)]);
}

#[test]
fn dirty_message_of_group_position() {
    let c = group();
    let m = dirty_msg_for(&c, ivec2(10, 150), true);
    assert_eq!(m, DeferredDirtyRectUpdate { chunk_pos: ChunkPos::new(uvec2(10, 22), ivec2(0, 2)), awake_surrouding: true });
}

#[test]
fn liquid_falls() {
    let mut c = group();
    let p = ivec2(100, 100);
    put(&mut c, p, atom(3));
    let aw = update_liquid(&mut c, p, 5, 1);
    // Speed 0 becomes 1: one step straight down into the void.
    assert!(aw.contains(&p));
    assert!(aw.contains(&ivec2(100, 101)));
    assert_eq!(atom_of(&c, ivec2(100, 101)).id, 3);
    assert_eq!(atom_of(&c, p).id, 0);
}

#[test]
fn liquid_flows_sideways() {
    let mut c = group();
    let p = ivec2(100, 100);
    put(&mut c, p, atom(3));
    for x in 95..106 {
        put(&mut c, ivec2(x, 101), atom(8));
    }
    let aw = update_liquid(&mut c, p, 5, 1);
    assert!(aw.contains(&p));
    let moved_to: Vec<IVec2> = (95..106).map(|x| ivec2(x, 100)).filter(|q| atom_of(&c, *q).id == 3).collect();
    assert_eq!(moved_to.len(), 1);
    assert!(moved_to[0] == ivec2(95, 100) || moved_to[0] == ivec2(105, 100));
    assert_eq!(atom_of(&c, moved_to[0]).speed.1, 0);
}

#[test]
fn liquid_stuck_stays() {
    let mut c = group();
    let p = ivec2(100, 100);
    put(&mut c, p, atom(3));
    for q in [ivec2(99, 100), ivec2(101, 100), ivec2(99, 101), ivec2(100, 101), ivec2(101, 101)] {
        put(&mut c, q, atom(8));
    }
    let aw = update_liquid(&mut c, p, 5, 1);
    assert!(aw.is_empty());
    assert_eq!(atom_of(&c, p).id, 3);
}

#[test]
fn begin_and_finish_update() {
    let mut c = group();
    let p = ivec2(64 + 10, 64 + 20);
    put(&mut c, p, atom(2));
    let step = begin_atom_update(&mut c, 10, 20, 4).unwrap();
    assert_eq!(step.id, 2);
    assert_eq!(step.kind(), UpdateKind::Powder);
    assert!(step.awake_self);
    assert_eq!(atom_of(&c, p).f_idle, 1);
    finish_atom_update(&mut c, p, vec![], false, step.awake_self);
    assert!(!atom_of(&c, p).moving);
    assert_eq!(c.dirty_update_rects.len(), 1);
    assert_eq!(c.dirty_update_rects[0].chunk_pos, ChunkPos::new(uvec2(10, 20), ivec2(1, 1)));
    assert!(!c.dirty_update_rects[0].awake_surrouding);
    // Already updated at this frame: nothing to do.
    put(&mut c, p, Atom { updated_at: 4, ..atom(2) });
    assert!(begin_atom_update(&mut c, 10, 20, 4).is_none());
}

#[test]
fn finish_moved_atom() {
    let mut c = group();
    let p = ivec2(100, 100);
    let q = ivec2(100, 101);
    put(&mut c, q, atom(2));
    finish_atom_update(&mut c, q, vec![p, q], false, false);
    assert!(atom_of(&c, q).moving);
    assert_eq!(atom_of(&c, q).f_idle, 0);
    assert_eq!(c.dirty_update_rects.len(), 2);
    assert!(c.dirty_update_rects.iter().all(|m| m.awake_surrouding));
}

#[test]
fn step_kinds() {
    let s = AtomStep { id: 3, speed: (0, 2), state: AtomState::Liquid, awake_self: false };
    assert_eq!(s.kind(), UpdateKind::Liquid);
    let s = AtomStep { id: 3, speed: (1, 2), state: AtomState::Liquid, awake_self: false };
    assert_eq!(s.kind(), UpdateKind::Vector);
    let s = AtomStep { id: 8, speed: (0, 0), state: AtomState::Solid, awake_self: false };
    assert_eq!(s.kind(), UpdateKind::Still);
    let s = AtomStep { id: 2, speed: (0, -1), state: AtomState::Powder, awake_self: false };
    assert_eq!(s.kind(), UpdateKind::Vector);
}

#[test]
fn position_sets() {
    let mut v = vec![];
    insert_pos(&mut v, ivec2(1, 2));
    insert_pos(&mut v, ivec2(1, 2));
    insert_pos(&mut v, ivec2(3, 4));
    assert_eq!(v, vec![ivec2(1, 2), ivec2(3, 4)]);
    assert!(vec_contains(&v, ivec2(3, 4)));
    assert!(!vec_contains(&v, ivec2(4, 3)));
}

#[test]
fn group_update_returns_to_chunks() {
    let mut chunks = BTreeMap::new();
    for x in 0..3 {
        for y in 0..3 {
            chunks.insert((x, y), Chunk::new_empty());
        }
    }
    let group = take_group(&mut chunks, ivec2(1, 1));
    let mut c = UpdateChunksType { group, dirty_update_rects: vec![], dirty_render_rects: vec![], materials: materials() };
    put(&mut c, ivec2(64, 127), atom(3));
    let aw = update_liquid(&mut c, ivec2(64, 127), 5, 1);
    assert!(aw.contains(&ivec2(64, 128)) || aw.contains(&ivec2(63, 128)) || aw.contains(&ivec2(65, 128)));
    return_group(&mut chunks, c.group);
    let below: u32 = chunks[&(1, 2)].atoms.iter().chain(chunks[&(0, 2)].atoms.iter()).filter(|a| a.id == 3).count() as u32;
    assert_eq!(below, 1);
}

#[test]
fn gravity_speeds_up() {
    let mut c = group();
    let p = ivec2(100, 100);
    put(&mut c, p, Atom { speed: (3, 5), ..atom(2) });
    assert_eq!(atom_gravity(&mut c, p), ivec2(3, 6));
    assert_eq!(atom_of(&c, p).speed, (3, 6));
    put(&mut c, p, Atom { speed: (0, 20), ..atom(2) });
    assert_eq!(atom_gravity(&mut c, p), ivec2(0, 20));
    assert_eq!(atom_of(&c, p).speed, (0, 20));
}

#[test]
fn vector_move_along_free_line() {
    let mut c = group();
    let p = ivec2(100, 100);
    put(&mut c, p, Atom { speed: (3, 6), ..atom(2) });
    let path = vec![ivec2(101, 100), ivec2(101, 101), ivec2(102, 101)];
    let aw = update_atom_along(&mut c, p, ivec2(3, 6), &path, ivec2(-1, -3), 7);
    assert_eq!(aw, vec![p, ivec2(101, 100), ivec2(101, 101), ivec2(102, 101)]);
    assert_eq!(atom_of(&c, ivec2(102, 101)), Atom { speed: (3, 6), updated_at: 7, ..atom(2) });
    assert_eq!(atom_of(&c, p).id, 0);
    assert_eq!(c.dirty_render_rects.len(), 6);
}

#[test]
fn vector_move_bounces() {
    let mut c = group();
    let p = ivec2(100, 100);
    put(&mut c, p, atom(2));
    put(&mut c, ivec2(101, 101), atom(8));
    let aw = update_atom_along(&mut c, p, ivec2(6, 6), &vec![ivec2(101, 101), ivec2(102, 102)], ivec2(-3, -3), 0);
    assert_eq!(aw, vec![p]);
    assert_eq!(atom_of(&c, p).speed, (-3, -3));
    // Slow, with room below: the velocity stays.
    put(&mut c, p, Atom { speed: (1, 1), ..atom(2) });
    update_atom_along(&mut c, p, ivec2(1, 1), &vec![ivec2(101, 101)], ivec2(0, 0), 0);
    assert_eq!(atom_of(&c, p).speed, (1, 1));
    // Slow, resting on something: it stops.
    put(&mut c, ivec2(100, 101), atom(8));
    update_atom_along(&mut c, p, ivec2(1, 1), &vec![ivec2(101, 101)], ivec2(0, 0), 0);
    assert_eq!(atom_of(&c, p).speed, (0, 0));
}

#[test]
fn vector_move_into_liquid() {
    let mut c = group();
    let p = ivec2(100, 100);
    let q = ivec2(99, 101);
    put(&mut c, p, atom(3));
    put(&mut c, q, atom(3));
    let aw = update_atom_along(&mut c, p, ivec2(-7, 10), &vec![q], ivec2(0, 0), 0);
    assert_eq!(aw, vec![p, q]);
    assert_eq!(atom_of(&c, q).speed, (-5, 8));
    assert_eq!(atom_of(&c, p).speed, (-1, 2));
}
