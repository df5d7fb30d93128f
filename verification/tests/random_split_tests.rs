use std::collections::BTreeMap;

use astratomic::atom::{shade_with, Atom};
use astratomic::atom_update::update_liquid_with;
use astratomic::chunk::Chunk;
use astratomic::chunk_manager::take_group;
use astratomic::group_api::{atom_of, down_neigh_with, put, side_neigh_with, swapable_with, UpdateChunksType};
use astratomic::manager_api::{update_dirty_rects_3x3, ChunkPos, RectMap};
use astratomic::materials::{AtomState, Material, Materials};
use astratomic::math::{abs_i32, ivec2, signum_i32, uvec2};
use astratomic::powder::{powder_gravity, powder_step_with, set_moving_with, update_powder_with, PowderDraw};

fn materials() -> Materials {
    let state = |i: u8| match i {
        0 => AtomState::Void,
        1 => AtomState::Object,
        2 | 4 | 7 => AtomState::Powder,
        3 | 5 | 9 => AtomState::Liquid,
        _ => AtomState::Solid,
    };
    Materials((0..10u8).map(|i| Material { flow: if i == 3 { 5 } else { 0 }, default_state: state(i) }).collect())
}

fn atom(id: u8) -> Atom {
    Atom { id, ..Atom::default() }
}

fn group() -> UpdateChunksType {
    let mut chunks = BTreeMap::new();
    for x in 0..3 {
        for y in 0..3 {
            chunks.insert((x, y), Chunk::new_empty());
        }
    }
    let group = take_group(&mut chunks, ivec2(1, 1));
    UpdateChunksType { group, dirty_update_rects: vec![], dirty_render_rects: vec![], materials: materials() }
}

#[test]
fn swapable_with_follows_the_draws() {
    let mut c = group();
    let sand = Material { flow: 0, default_state: AtomState::Powder };
    let p = ivec2(100, 101);
    put(&mut c, p, atom(3));
    // Water gives way when its draw is below its chance of 200 in 1000.
    assert!(swapable_with(&c, p, &[(3, 200)], sand, 1, &[199]));
    assert!(!swapable_with(&c, p, &[(3, 200)], sand, 1, &[200]));
    assert!(!swapable_with(&c, p, &[(3, 200)], sand, 1, &[999]));
    // An entry for another id does not count, whatever its draw.
    assert!(!swapable_with(&c, p, &[(8, 1000), (3, 200)], sand, 1, &[0, 500]));
    assert!(swapable_with(&c, p, &[(8, 1000), (3, 200)], sand, 1, &[0, 5]));
    // Not once it was updated at this frame.
    put(&mut c, p, Atom { id: 3, updated_at: 4, ..Atom::default() });
    assert!(!swapable_with(&c, p, &[(3, 200)], sand, 4, &[0]));
    // Void always gives way.
    put(&mut c, p, atom(0));
    assert!(swapable_with(&c, p, &[], sand, 4, &[]));
}

#[test]
fn neighbour_order_follows_the_coin() {
    let mut c = group();
    let p = ivec2(100, 100);
    put(&mut c, p, atom(3));
    put(&mut c, ivec2(99, 101), atom(8));
    let left_first = down_neigh_with(&c, p, &[], 0, false);
    assert_eq!(left_first, [(true, ivec2(0, 1)), (false, ivec2(-1, 1)), (true, ivec2(1, 1))]);
    let right_first = down_neigh_with(&c, p, &[], 0, true);
    assert_eq!(right_first, [(true, ivec2(0, 1)), (true, ivec2(1, 1)), (false, ivec2(-1, 1))]);
    put(&mut c, ivec2(101, 100), atom(8));
    assert_eq!(side_neigh_with(&c, p, &[], 0, false), [(true, ivec2(-1, 0)), (false, ivec2(1, 0))]);
    assert_eq!(side_neigh_with(&c, p, &[], 0, true), [(false, ivec2(1, 0)), (true, ivec2(-1, 0))]);
}

#[test]
fn colours_follow_the_offsets() {
    assert_eq!(shade_with(230, -20), 210);
    assert_eq!(shade_with(92, 19), 111);
    let sand = Atom::new_with(2, (-20, 0, 19));
    assert_eq!(sand.color, [210, 197, 111, 255]);
    assert_eq!(sand.id, 2);
    let water = Atom::new_with(3, (5, -5, 0));
    assert_eq!(water.color, [25, 120, 204, 150]);
    let lava = Atom::new_with(5, (9, -20, -10));
    assert_eq!(lava.color, [254, 120, 0, 255]);
}

#[test]
fn sign_and_absolute_value() {
    assert_eq!(abs_i32(-7), 7);
    assert_eq!(abs_i32(7), 7);
    assert_eq!(abs_i32(0), 0);
    assert_eq!(signum_i32(-9), -1);
    assert_eq!(signum_i32(0), 0);
    assert_eq!(signum_i32(12), 1);
}

#[test]
fn waking_side_neighbours() {
    let mut c = group();
    let p = ivec2(100, 100);
    set_moving_with(&mut c, p, (true, false));
    assert!(atom_of(&c, ivec2(99, 100)).moving);
    assert!(!atom_of(&c, ivec2(101, 100)).moving);
    set_moving_with(&mut c, p, (true, true));
    assert!(atom_of(&c, ivec2(101, 100)).moving);
    let mut d = group();
    // The right one is only woken after the left one.
    set_moving_with(&mut d, p, (false, true));
    assert!(!atom_of(&d, ivec2(101, 100)).moving);
}

#[test]
fn powder_falls_step_by_step() {
    let mut c = group();
    let p = ivec2(100, 100);
    put(&mut c, p, atom(2));
    assert_eq!(powder_gravity(&mut c, p), 1);
    assert_eq!(atom_of(&c, p).speed, (0, 1));
    put(&mut c, p, Atom { speed: (0, 20), ..atom(2) });
    assert_eq!(powder_gravity(&mut c, p), 20);
    // Straight down is free: the powder goes there.
    let neigh = [(true, ivec2(0, 1)), (false, ivec2(0, 0)), (false, ivec2(0, 0))];
    let r = powder_step_with(&mut c, p, 3, neigh, (true, true), (false, false));
    assert_eq!(r, Some(ivec2(100, 101)));
    assert_eq!(atom_of(&c, ivec2(100, 101)).id, 2);
    assert_eq!(atom_of(&c, p).id, 0);
    assert_eq!(c.dirty_render_rects.len(), 2);
    // Nothing free: it stays, and the neighbours are not woken when it is not moving.
    let q = ivec2(110, 100);
    put(&mut c, q, atom(2));
    let none = [(false, ivec2(0, 1)), (false, ivec2(-1, 1)), (false, ivec2(1, 1))];
    assert_eq!(powder_step_with(&mut c, q, 3, none, (true, true), (true, true)), None);
    assert!(!atom_of(&c, ivec2(109, 100)).moving);
    // A moving powder wakes its neighbours first.
    put(&mut c, q, Atom { moving: true, ..atom(2) });
    assert_eq!(powder_step_with(&mut c, q, 3, none, (true, false), (true, true)), None);
    assert!(atom_of(&c, ivec2(109, 100)).moving);
    assert!(!atom_of(&c, ivec2(111, 100)).moving);
}

#[test]
fn marking_squares_commutes_and_is_idempotent() {
    let p = ChunkPos::new(uvec2(63, 0), ivec2(2, 5));
    let q = ChunkPos::new(uvec2(10, 40), ivec2(3, 5));
    let mut m1: RectMap = BTreeMap::new();
    update_dirty_rects_3x3(&mut m1, p);
    update_dirty_rects_3x3(&mut m1, q);
    let mut m2: RectMap = BTreeMap::new();
    update_dirty_rects_3x3(&mut m2, q);
    update_dirty_rects_3x3(&mut m2, p);
    assert_eq!(m1, m2);
    let once = m1.clone();
    update_dirty_rects_3x3(&mut m1, p);
    assert_eq!(m1, once);
}

#[test]
fn liquid_follows_its_coins() {
    // Straight down is blocked, both diagonals are free: the coin picks one.
    for (left, expected) in [(true, ivec2(99, 101)), (false, ivec2(101, 101))] {
        let mut c = group();
        let p = ivec2(100, 100);
        put(&mut c, p, atom(3));
        put(&mut c, ivec2(100, 101), atom(8));
        put(&mut c, ivec2(99, 102), atom(8));
        put(&mut c, ivec2(100, 102), atom(8));
        put(&mut c, ivec2(101, 102), atom(8));
        let aw = update_liquid_with(&mut c, p, 5, 1, &[left], true);
        assert_eq!(atom_of(&c, expected).id, 3);
        assert_eq!(aw, vec![p, expected]);
    }
    // Nothing below is free: it flows up to 5 atoms to the side its coin picks.
    for (left, expected) in [(true, ivec2(95, 100)), (false, ivec2(105, 100))] {
        let mut c = group();
        let p = ivec2(100, 100);
        put(&mut c, p, atom(3));
        for x in 94..107 {
            put(&mut c, ivec2(x, 101), atom(8));
        }
        update_liquid_with(&mut c, p, 5, 1, &[true], left);
        assert_eq!(atom_of(&c, expected).id, 3);
        assert_eq!(atom_of(&c, expected).speed.1, 0);
        assert_eq!(atom_of(&c, p).id, 0);
    }
}

#[test]
fn powder_falls_until_it_lands() {
    let mut c = group();
    let p = ivec2(100, 100);
    put(&mut c, p, Atom { speed: (0, 3), ..atom(2) });
    // Rock two rows down, and on both diagonals there.
    for x in 99..102 {
        put(&mut c, ivec2(x, 103), atom(8));
    }
    let d = |flip| PowderDraw { flip, draws: [999, 999, 999], wake_first: (false, false), wake_swap: (false, false) };
    let (aw, stop) = update_powder_with(&mut c, p, 1, &[d(false), d(false), d(false), d(false)]);
    // Speed 3 becomes 4: two steps down, then it lands on the rock.
    assert_eq!(aw, vec![p, ivec2(100, 101), ivec2(100, 102)]);
    assert_eq!(stop, Some(ivec2(100, 102)));
    assert_eq!(atom_of(&c, ivec2(100, 102)).id, 2);
    assert_eq!(atom_of(&c, ivec2(100, 102)).speed.1, 4);
    // Water below gives way only when its draw is below 200.
    let mut w = group();
    put(&mut w, p, atom(2));
    put(&mut w, ivec2(100, 101), atom(3));
    put(&mut w, ivec2(99, 101), atom(8));
    put(&mut w, ivec2(101, 101), atom(8));
    let wet = |n| PowderDraw { flip: false, draws: [n, 999, 999], wake_first: (false, false), wake_swap: (false, false) };
    let (_, stop) = update_powder_with(&mut w, p, 1, &[wet(500)]);
    assert_eq!(stop, Some(p));
    // Now at speed 1, it becomes 2: into the water, then into the void below.
    let (aw, stop) = update_powder_with(&mut w, p, 2, &[wet(10), wet(10)]);
    assert_eq!(stop, None);
    assert_eq!(aw, vec![p, ivec2(100, 101), ivec2(100, 102)]);
    assert_eq!(atom_of(&w, p).id, 3);
    assert_eq!(atom_of(&w, ivec2(100, 102)).id, 2);
}

#[test]
fn powder_room_is_checked() {
    use_room();
}

fn use_room() {
    let c = group();
    // The whole 3x3 is loaded: everything around the centre is held.
    assert!(astratomic::powder::holds_around(&c, ivec2(100, 100), 21));
    let mut chunks = BTreeMap::new();
    chunks.insert((0, 0), Chunk::new_empty());
    let g = take_group(&mut chunks, ivec2(0, 0));
    let lone = UpdateChunksType { group: g, dirty_update_rects: vec![], dirty_render_rects: vec![], materials: materials() };
    // Alone, the chunk's left neighbour is missing.
    assert!(astratomic::powder::holds_around(&lone, ivec2(100, 100), 3));
    assert!(!astratomic::powder::holds_around(&lone, ivec2(64, 100), 0));
}
