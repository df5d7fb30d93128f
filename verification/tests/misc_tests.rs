use std::collections::BTreeMap;

use astratomic::animation::{player_animation, AnimationIndices, PlayerState};
use astratomic::atom::Atom;
use astratomic::chunk::Chunk;
use astratomic::chunk_manager::{ChunkManager, DirtyRects};
use astratomic::debug::{dirty_rect_gizmo, paint};
use astratomic::geom_tools::_circle_points;
use astratomic::manager_api::global_to_chunk;
use astratomic::materials::{AtomState, Material, Materials};
use astratomic::math::{ivec2, uvec2, IRect, URect};
use astratomic::menu::{pressed_action, ButtonType, GameState, MenuAction};

fn in_range(c: u8, base: i32, spread: i32) -> bool {
    base - spread <= c as i32 && (c as i32) < base + spread
}

#[test]
fn object_atom() {
    let o = Atom::object();
    assert_eq!(o, Atom { id: 1, ..Atom::default() });
    assert_eq!(Atom::default(), Atom { color: [0; 4], id: 0, moving: false, speed: (0, 0), f_idle: 0, updated_at: 0 });
}

#[test]
fn new_atoms_have_their_colour() {
    for _ in 0..50 {
        let sand = Atom::new(2);
        assert_eq!(sand.id, 2);
        assert!(in_range(sand.color[0], 230, 20) && in_range(sand.color[1], 197, 20) && in_range(sand.color[2], 92, 20));
        assert_eq!(sand.color[3], 255);
        assert_eq!(Atom { color: [0; 4], ..sand }, Atom { id: 2, ..Atom::default() });
        let water = Atom::new(3);
        assert!(in_range(water.color[2], 204, 20));
        assert_eq!(water.color[3], 150);
        let acid = Atom::new(9);
        assert!(in_range(acid.color[1], 230, 10) && in_range(acid.color[2], 40, 5));
    }
}

#[test]
fn material_states() {
    let m = Materials(vec![
        Material { flow: 0, default_state: AtomState::Void },
        Material { flow: 3, default_state: AtomState::Liquid },
    ]);
    assert!(m.get_from_id(0).is_void());
    assert!(m.get_from_atom(&Atom { id: 1, ..Atom::default() }).is_liquid());
    assert_eq!(m.get_from_id(1).flow, 3);
    let s = Material { flow: 0, default_state: AtomState::Solid };
    assert!(s.is_solid() && !s.is_powder() && !s.is_object() && !s.is_void() && !s.is_liquid());
}

#[test]
fn rects_new_and_contains() {
    let r = URect::new(5, 9, 2, 3);
    assert_eq!((r.min, r.max), (uvec2(2, 3), uvec2(5, 9)));
    assert!(r.contains(uvec2(2, 9)));
    assert!(!r.contains(uvec2(6, 4)));
    let r = IRect::new(-1, 4, 3, -2);
    assert_eq!((r.min, r.max), (ivec2(-1, -2), ivec2(3, 4)));
    assert!(r.contains(ivec2(0, 0)));
    assert!(!r.contains(ivec2(-2, 0)));
}

#[test]
fn animation_frames() {
    let a = AnimationIndices { first: 0, last: 3 };
    assert_eq!(a.next_index(0), 1);
    assert_eq!(a.next_index(2), 3);
    assert_eq!(a.next_index(3), 0);
    assert_eq!(a.next_index(5), 0);
    let b = AnimationIndices { first: 8, last: 11 };
    assert_eq!(b.next_index(0), 8);
    let mut i = 20;
    for _ in 0..10 {
        i = b.next_index(i);
        assert!((8..=11).contains(&i));
    }
}

#[test]
fn player_animation_ranges() {
    let r = |s| {
        let a = player_animation(s);
        (a.first, a.last)
    };
    assert_eq!(r(PlayerState::Idle), (0, 1));
    assert_eq!(r(PlayerState::Walking), (8, 11));
    assert_eq!(r(PlayerState::Jumping), (16, 23));
    assert_eq!(r(PlayerState::Jetpack(true)), (24, 26));
    assert_eq!(r(PlayerState::Jetpack(false)), (32, 32));
    assert_eq!(r(PlayerState::Dead), (0, 0));
}

#[test]
fn circle_points_values() {
    assert_eq!(_circle_points(ivec2(10, 10), 3), vec![ivec2(7, 10), ivec2(7, 10), ivec2(13, 10), ivec2(13, 10)]);
    assert_eq!(_circle_points(ivec2(-4, 2), 0), vec![ivec2(-4, 2); 4]);
    assert!(_circle_points(ivec2(0, 0), -1).is_empty());
}

#[test]
fn gizmo_of_dirty_rect() {
    let (pos, size) = dirty_rect_gizmo(ivec2(1, 2), URect::new(3, 4, 5, 9));
    assert_eq!(pos, ivec2(67, -132));
    assert_eq!(size, uvec2(3, 6));
    let (pos, size) = dirty_rect_gizmo(ivec2(-1, -1), URect::new(0, 0, 63, 63));
    assert_eq!(pos, ivec2(-64, 64));
    assert_eq!(size, uvec2(64, 64));
}

#[test]
fn paint_along_path() {
    let mut cm = ChunkManager { chunks: BTreeMap::new(), pos: ivec2(0, 0), dt: 0 };
    cm.insert_chunk(ivec2(0, 0), Chunk::new_empty());
    let mut d = DirtyRects { current: BTreeMap::new(), new: BTreeMap::new(), render: BTreeMap::new() };
    let rock = Atom { id: 8, ..Atom::default() };
    let path = vec![ivec2(3, 4), ivec2(4, 4), ivec2(-1, 4), ivec2(5, 6), ivec2(4, 4)];
    paint(&mut cm, &mut d, rock, &path);
    for (x, y) in [(3, 4), (4, 4), (5, 6)] {
        assert_eq!(*cm.get_atom(&global_to_chunk(ivec2(x, y))).unwrap(), rock);
    }
    assert_eq!(cm.chunks[&(0, 0)].atoms.iter().filter(|a| a.id == 8).count(), 3);
    assert_eq!(d.current.len(), 1);
    assert_eq!(d.current[&(0, 0)], URect::new(3, 4, 5, 6));
    assert_eq!(d.render[&(0, 0)], URect::new(3, 4, 5, 6));
    assert!(d.new.is_empty());
}

#[test]
fn menu_buttons() {
    assert_eq!(pressed_action(ButtonType::Start), MenuAction::Enter(GameState::Game));
    assert_eq!(pressed_action(ButtonType::Quit), MenuAction::Exit);
}
