use std::collections::BTreeMap;

use astratomic::actors::{actor_step, actor_step_with, fill_actor, move_x, move_y, on_ground, unfill_actor, Actor};
use astratomic::atom::Atom;
use astratomic::chunk::Chunk;
use astratomic::chunk_manager::{ChunkManager, DirtyRects};
use astratomic::manager_api::{global_to_chunk, ChunkPos};
use astratomic::materials::{AtomState, Material, Materials};
use astratomic::math::{ivec2, uvec2, IVec2, URect};
use astratomic::particles::{
    apply_particle_update, in_loaded_area, particle_path_step, DeferredParticleUpdate, PartState, ParticleStep,
};
use astratomic::player_inv::{Inventory, Item, Slot};
use astratomic::rigidbody::{image_atoms, image_values, Rigidbody};
use astratomic::tool::{mark_pulled, pull_at, push_shot};

fn materials() -> Materials {
    let state = |i: u8| match i {
        0 => AtomState::Void,
        1 => AtomState::Object,
        2 | 4 | 7 => AtomState::Powder,
        3 | 5 | 9 => AtomState::Liquid,
        _ => AtomState::Solid,
    };
    Materials((0..10u8).map(|i| Material { flow: 0, default_state: state(i) }).collect())
}

fn atom(id: u8) -> Atom {
    Atom { id, ..Atom::default() }
}

/// One loaded chunk at (0, 0).
fn world() -> ChunkManager {
    let mut cm = ChunkManager { chunks: BTreeMap::new(), pos: ivec2(0, 0), dt: 0 };
    cm.insert_chunk(ivec2(0, 0), Chunk::new_empty());
    cm
}

fn put(cm: &mut ChunkManager, x: i32, y: i32, a: Atom) {
    assert!(cm.set_atom(global_to_chunk(ivec2(x, y)), a));
}

fn at(cm: &ChunkManager, x: i32, y: i32) -> Atom {
    *cm.get_atom(&global_to_chunk(ivec2(x, y))).unwrap()
}

fn rects() -> DirtyRects {
    DirtyRects { current: BTreeMap::new(), new: BTreeMap::new(), render: BTreeMap::new() }
}

fn empty_inventory() -> Inventory {
    Inventory::new([None; 32], [None; 32], 0)
}

#[test]
fn actor_ground_and_moves() {
    let mut cm = world();
    let m = materials();
    let mut a = Actor { width: 2, height: 3, pos: ivec2(10, 10) };
    assert!(!on_ground(&cm, &a, &m));
    put(&mut cm, 11, 13, atom(2));
    assert!(on_ground(&cm, &a, &m));
    // A liquid does not hold an actor.
    put(&mut cm, 11, 13, atom(3));
    assert!(!on_ground(&cm, &a, &m));
    put(&mut cm, 12, 11, atom(8));
    assert!(!move_x(&cm, &mut a, 1, &m));
    assert_eq!(a.pos, ivec2(10, 10));
    assert!(move_x(&cm, &mut a, -1, &m));
    assert_eq!(a.pos, ivec2(9, 10));
    assert!(move_y(&cm, &mut a, -1, &m));
    assert_eq!(a.pos, ivec2(9, 9));
    // Outside the loaded chunks everything blocks.
    let mut b = Actor { width: 1, height: 1, pos: ivec2(0, 5) };
    assert!(!move_x(&cm, &mut b, -1, &m));
    assert!(on_ground(&cm, &Actor { width: 1, height: 1, pos: ivec2(5, 63) }, &m));
}

#[test]
fn actor_moves_by_any_step() {
    let cm = world();
    let m = materials();
    // Only the column next to the actor on the side of `dir` is looked at,
    // and the actor moves by all of `dir`.
    let mut a = Actor { width: 2, height: 3, pos: ivec2(10, 10) };
    assert!(move_x(&cm, &mut a, 3, &m));
    assert_eq!(a.pos, ivec2(13, 10));
    assert!(move_y(&cm, &mut a, -2, &m));
    assert_eq!(a.pos, ivec2(13, 8));
    // A direction of zero looks at the left column and stays.
    assert!(move_x(&cm, &mut a, 0, &m));
    assert_eq!(a.pos, ivec2(13, 8));
}

#[test]
fn actor_walks_up_a_step() {
    let mut cm = world();
    let m = materials();
    for x in 0..64 {
        put(&mut cm, x, 20, atom(8));
    }
    // A step one atom high in front of the actor.
    put(&mut cm, 12, 19, atom(8));
    let mut a = Actor { width: 2, height: 4, pos: ivec2(10, 16) };
    let r = actor_step_with(&cm, &mut a, ivec2(0, 0), ivec2(1, 0), true, &m);
    assert_eq!(r, (true, false));
    assert_eq!(a.pos, ivec2(11, 13));
}

#[test]
fn actor_blocked_vertically() {
    let mut cm = world();
    let m = materials();
    put(&mut cm, 10, 14, atom(8));
    let mut a = Actor { width: 1, height: 4, pos: ivec2(10, 10) };
    let r = actor_step(&cm, &mut a, ivec2(0, 0), ivec2(0, 1), &m);
    assert_eq!(r, (true, true));
    assert_eq!(a.pos, ivec2(10, 10));
    let r = actor_step(&cm, &mut a, ivec2(0, 0), ivec2(0, -1), &m);
    assert_eq!(r, (false, false));
    assert_eq!(a.pos, ivec2(10, 9));
}

#[test]
fn fill_then_unfill_actor() {
    let mut cm = world();
    let m = materials();
    put(&mut cm, 11, 11, atom(3));
    let before: Vec<Atom> = cm.chunks[&(0, 0)].atoms.clone();
    let a = Actor { width: 2, height: 2, pos: ivec2(10, 10) };
    let mut d = BTreeMap::new();
    let hits = fill_actor(&mut cm, &mut d, &a, &m);
    assert_eq!(hits, vec![3]);
    assert_eq!(at(&cm, 10, 10), Atom::object());
    assert_eq!(at(&cm, 11, 11), atom(3));
    assert_eq!(d[&(0, 0)], URect::new(9, 9, 12, 12));
    unfill_actor(&mut cm, &a, &m);
    assert_eq!(cm.chunks[&(0, 0)].atoms, before);
}

#[test]
fn particle_bounds() {
    assert!(in_loaded_area(ivec2(0, 0), ivec2(0, 0)));
    assert!(in_loaded_area(ivec2(0, 0), ivec2(2047, 1151)));
    assert!(!in_loaded_area(ivec2(0, 0), ivec2(2048, 0)));
    assert!(!in_loaded_area(ivec2(0, 0), ivec2(0, 1152)));
    assert!(!in_loaded_area(ivec2(1, 1), ivec2(63, 100)));
    assert!(in_loaded_area(ivec2(-1, -1), ivec2(-64, -1)));
}

#[test]
fn falling_particle_paths() {
    let mut cm = world();
    let m = materials();
    let path: Vec<IVec2> = (3..=8).map(|y| ivec2(5, y)).collect();
    assert_eq!(particle_path_step(&cm, &m, false, ivec2(5, 2), &path), ParticleStep::Free);
    put(&mut cm, 5, 6, atom(8));
    assert_eq!(
        particle_path_step(&cm, &m, false, ivec2(5, 2), &path),
        ParticleStep::Place(ChunkPos::new(uvec2(5, 5), ivec2(0, 0)))
    );
    put(&mut cm, 5, 5, atom(8));
    assert_eq!(
        particle_path_step(&cm, &m, false, ivec2(5, 2), &path),
        ParticleStep::Place(ChunkPos::new(uvec2(5, 4), ivec2(0, 0)))
    );
    // Hitting something right after a taken place: the particle starts looking.
    assert_eq!(particle_path_step(&cm, &m, false, ivec2(5, 5), &vec![ivec2(5, 6)]), ParticleStep::StartLooking);
}

#[test]
fn looking_particle_paths() {
    let mut cm = world();
    let m = materials();
    put(&mut cm, 5, 4, atom(8));
    put(&mut cm, 5, 5, atom(8));
    let path = vec![ivec2(5, 5), ivec2(5, 6), ivec2(5, 7)];
    assert_eq!(
        particle_path_step(&cm, &m, true, ivec2(5, 4), &path),
        ParticleStep::Place(ChunkPos::new(uvec2(5, 7), ivec2(0, 0)))
    );
    assert_eq!(particle_path_step(&cm, &m, true, ivec2(5, 4), &vec![ivec2(5, 5)]), ParticleStep::Free);
}

#[test]
fn particle_updates() {
    let mut cm = world();
    let m = materials();
    let mut d = rects();
    assert!(apply_particle_update(&mut cm, &mut d, &m, &DeferredParticleUpdate { ent: 1, remove: None }));
    assert!(d.current.is_empty() && d.render.is_empty());
    let cp = ChunkPos::new(uvec2(20, 20), ivec2(0, 0));
    let sand = atom(2);
    assert!(apply_particle_update(&mut cm, &mut d, &m, &DeferredParticleUpdate { ent: 2, remove: Some((cp, sand)) }));
    assert_eq!(at(&cm, 20, 20), sand);
    assert_eq!(d.render[&(0, 0)], URect::new(20, 20, 20, 20));
    assert_eq!(d.current[&(0, 0)], URect::new(19, 19, 21, 21));
    // The place is taken now: the particle stays.
    assert!(!apply_particle_update(&mut cm, &mut d, &m, &DeferredParticleUpdate { ent: 3, remove: Some((cp, atom(3))) }));
    assert_eq!(at(&cm, 20, 20), sand);
    assert_eq!(PartState::default(), PartState::Normal);
}

#[test]
fn image_to_atoms() {
    let data = vec![1, 2, 3, 4, 0, 0, 0, 0, 9, 9, 9];
    let atoms = image_atoms(&data);
    assert_eq!(atoms.len(), 2);
    assert_eq!(atoms[0], Atom { id: 8, color: [1, 2, 3, 4], ..Atom::default() });
    assert_eq!(atoms[1], Atom::default());
    assert_eq!(image_values(&data), vec![true, false]);
}

#[test]
fn rigidbody_fill_unfill() {
    let mut cm = world();
    let m = materials();
    put(&mut cm, 3, 3, atom(2));
    let before = cm.chunks[&(0, 0)].atoms.clone();
    let mut rb = Rigidbody { atoms: vec![atom(8), Atom::default(), atom(8)], width: 3, height: 1, filled: vec![] };
    let mut d = BTreeMap::new();
    rb.fill(&mut cm, &mut d, &m, &vec![ivec2(1, 1), ivec2(2, 2), ivec2(3, 3)]);
    assert_eq!(at(&cm, 1, 1), Atom::object());
    assert_eq!(at(&cm, 2, 2), Atom::default());
    assert_eq!(at(&cm, 3, 3), atom(2));
    assert_eq!(rb.filled, vec![ChunkPos::new(uvec2(1, 1), ivec2(0, 0))]);
    assert_eq!(d[&(0, 0)], URect::new(0, 0, 4, 4));
    rb.unfill(&mut cm, &m);
    assert!(rb.filled.is_empty());
    assert_eq!(cm.chunks[&(0, 0)].atoms, before);
}

#[test]
fn tool_push() {
    let mut cm = world();
    let m = materials();
    let mut inv = empty_inventory();
    let cp = ChunkPos::new(uvec2(7, 7), ivec2(0, 0));
    assert_eq!(push_shot(&cm, &inv, &m, cp), None);
    inv.slots[0] = Some(Slot { item: Item::Atom(atom(2)), number: Some(3) });
    assert_eq!(push_shot(&cm, &inv, &m, cp), Some(2));
    put(&mut cm, 7, 7, atom(1));
    assert_eq!(push_shot(&cm, &inv, &m, cp), Some(2));
    put(&mut cm, 7, 7, atom(8));
    assert_eq!(push_shot(&cm, &inv, &m, cp), None);
    inv.slots[0] = Some(Slot::smart_tool());
    put(&mut cm, 7, 7, atom(0));
    assert_eq!(push_shot(&cm, &inv, &m, cp), None);
    assert_eq!(push_shot(&cm, &inv, &m, ChunkPos::new(uvec2(7, 7), ivec2(5, 5))), None);
}

#[test]
fn tool_pull() {
    let mut cm = world();
    let m = materials();
    let inv = empty_inventory();
    let cp = ChunkPos::new(uvec2(8, 9), ivec2(0, 0));
    assert_eq!(pull_at(&mut cm, &inv, &m, cp), None);
    put(&mut cm, 8, 9, atom(4));
    assert_eq!(pull_at(&mut cm, &inv, &m, cp), Some(atom(4)));
    assert_eq!(at(&cm, 8, 9), Atom::default());
    put(&mut cm, 8, 9, atom(1));
    assert_eq!(pull_at(&mut cm, &inv, &m, cp), None);
    // A full inventory takes nothing it cannot stack.
    let full = Inventory::new([Some(Slot { item: Item::Atom(atom(2)), number: Some(u16::MAX) }); 32], [None; 32], 0);
    put(&mut cm, 8, 9, atom(4));
    assert_eq!(pull_at(&mut cm, &full, &m, cp), None);
    assert_eq!(at(&cm, 8, 9), atom(4));
    let mut d = rects();
    mark_pulled(&mut d, &vec![cp]);
    assert_eq!(d.current[&(0, 0)], URect::new(7, 8, 9, 10));
    assert_eq!(d.render[&(0, 0)], URect::new(8, 9, 8, 9));
}

#[test]
fn inventory_add_and_remove() {
    let mut inv = empty_inventory();
    assert!(inv.can_add(Item::SmartTool));
    assert_eq!(inv.add(Item::Atom(atom(2))), Some(0));
    assert_eq!(inv.add(Item::Atom(atom(2))), None);
    assert_eq!(inv.slots[0].unwrap().number, Some(2));
    assert_eq!(inv.add(Item::SmartTool), Some(1));
    assert_eq!(inv.remove_one(0), None);
    assert_eq!(inv.slots[0].unwrap().number, Some(1));
    assert_eq!(inv.remove_one(0), Some(0));
    assert!(inv.slots[0].is_none());
    assert_eq!(inv.remove_one(5), None);
    inv.selected = 1;
    assert_eq!(inv.remove_one_selected(), Some(1));
    assert!(!inv._full());
}

#[test]
fn inventory_full() {
    let full = Inventory::new([Some(Slot { item: Item::Atom(atom(2)), number: Some(u16::MAX) }); 32], [None; 32], 0);
    assert!(full._full());
    assert!(!full.can_add(Item::Atom(atom(2))));
    assert!(!full.can_add(Item::SmartTool));
    let mut almost = full;
    almost.slots[31] = Some(Slot { item: Item::Atom(atom(2)), number: Some(5) });
    assert!(almost.can_add(Item::Atom(atom(2))));
    assert_eq!(almost.add(Item::Atom(atom(2))), None);
    assert_eq!(almost.slots[31].unwrap().number, Some(6));
}

#[test]
fn add_then_remove_gives_back() {
    let mut inv = empty_inventory();
    inv.slots[0] = Some(Slot::smart_tool());
    let before = inv.slots;
    let i = inv.add(Item::Atom(atom(3))).unwrap();
    assert_eq!(i, 1);
    assert_eq!(inv.remove_one(i), Some(i));
    assert_eq!(format!("{:?}", inv.slots), format!("{:?}", before));
}

#[test]
fn slot_makers() {
    let s = Slot::atom_full(3);
    assert_eq!(s.number, Some(100));
    match s.item {
        Item::Atom(a) => {
            assert_eq!(a.id, 3);
            assert_eq!(a.color[3], 150);
        }
        Item::SmartTool => panic!("not an atom"),
    }
    assert!(Slot::smart_tool().number.is_none());
    assert!(Item::Atom(atom(2)).same(Item::Atom(atom(2))));
    assert!(!Item::Atom(atom(2)).same(Item::Atom(atom(3))));
    assert!(Item::SmartTool.same(Item::SmartTool));
}

#[test]
fn actor_step_under_a_ceiling() {
    let mut cm = world();
    let m = materials();
    for x in 0..64 {
        put(&mut cm, x, 20, atom(8));
    }
    put(&mut cm, 12, 19, atom(8));
    put(&mut cm, 10, 14, atom(8));
    let mut a = Actor { width: 2, height: 4, pos: ivec2(10, 16) };
    let r = actor_step_with(&cm, &mut a, ivec2(0, 0), ivec2(1, 0), true, &m);
    assert_eq!(r, (true, false));
    assert_eq!(a.pos, ivec2(10, 16));
}

#[test]
fn actor_step_wall_too_high() {
    let mut cm = world();
    let m = materials();
    for x in 0..64 {
        put(&mut cm, x, 20, atom(8));
    }
    for y in 12..20 {
        put(&mut cm, 12, y, atom(8));
    }
    let mut a = Actor { width: 2, height: 4, pos: ivec2(10, 16) };
    let r = actor_step_with(&cm, &mut a, ivec2(0, 0), ivec2(1, 0), true, &m);
    assert_eq!(r, (true, false));
    assert_eq!(a.pos, ivec2(10, 16));
}
