use std::collections::BTreeMap;

use astratomic::atom::Atom;
use astratomic::atom_update::{begin_atom_update, finish_atom_update, update_liquid, UpdateKind};
use astratomic::chunk::Chunk;
use astratomic::chunk_manager::{apply_dirty_updates, return_group, take_group, update_centers, ChunkMap};
use astratomic::consts::{LOAD_HEIGHT, LOAD_WIDTH};
use astratomic::group_api::UpdateChunksType;
use astratomic::manager_api::{rand_range, RectMap};
use astratomic::materials::{AtomState, Material, Materials};
use astratomic::math::{ivec2, IVec2, URect};
use astratomic::powder::{speed_of, update_powder};

fn materials() -> Materials {
    let state = |i: u8| match i {
        0 => AtomState::Void,
        1 => AtomState::Object,
        2 | 4 | 7 => AtomState::Powder,
        3 | 5 | 9 => AtomState::Liquid,
        _ => AtomState::Solid,
    };
    Materials((0..10u8).map(|i| Material { flow: if i == 3 { 5 } else { 0 }, default_state: state(i) }).collect())
}

/// Updates the dirty rectangle of the centre chunk of a group, as the game
/// does (with powder that never wakes its neighbours).
fn update_group(chunks: &mut UpdateChunksType, dt: u8, rect: &URect) {
    let xs = rand_range(rect.min.x as i32..rect.max.x as i32 + 1);
    let ys = rand_range(rect.min.y as i32..rect.max.y as i32 + 1);
    for y in ys.iter() {
        for x in xs.iter() {
            let Some(step) = begin_atom_update(chunks, *x, *y, dt) else {
                continue;
            };
            let pos = ivec2(x + 64, y + 64);
            let awakened = match step.kind() {
                UpdateKind::Powder => {
                    let speed = speed_of(chunks, pos);
                    let wakes = vec![((false, false), (false, false)); speed as usize];
                    update_powder(chunks, pos, dt, &wakes).0
                }
                UpdateKind::Liquid => update_liquid(chunks, pos, 5, dt),
                _ => vec![],
            };
            finish_atom_update(chunks, pos, awakened, false, step.awake_self);
        }
    }
}

fn count(chunks: &ChunkMap, id: u8) -> usize {
    chunks.values().map(|c| c.atoms.iter().filter(|a| a.id == id).count()).sum()
}

#[test]
fn update_test() {
    let pos = ivec2(-16, -16);
    let mut chunks: ChunkMap = BTreeMap::new();
    let mut dirty_rects: RectMap = BTreeMap::new();
    for x in pos.x..pos.x + LOAD_WIDTH {
        for y in pos.y..pos.y + LOAD_HEIGHT {
            let mut chunk = Chunk::new_empty();
            // Sand on the top rows, water below it, rock at the bottom.
            for i in 0..64 {
                chunk.atoms[i] = Atom { id: 2, ..Atom::default() };
                chunk.atoms[64 * 16 + i] = Atom { id: 3, ..Atom::default() };
                chunk.atoms[64 * 63 + i] = Atom { id: 8, ..Atom::default() };
            }
            chunks.insert((x, y), chunk);
            dirty_rects.insert((x, y), URect::new(0, 0, 63, 63));
        }
    }
    let before = [count(&chunks, 2), count(&chunks, 3), count(&chunks, 8)];
    let mut new_dirty_rects: RectMap = BTreeMap::new();
    let mut updated: Vec<IVec2> = vec![];
    for y_toff in rand_range(0..2) {
        for x_toff in rand_range(0..2) {
            let centers = update_centers(&chunks, &dirty_rects, (x_toff, y_toff), pos);
            let mut groups = vec![];
            for center in centers {
                let group = take_group(&mut chunks, center);
                groups.push(UpdateChunksType {
                    group,
                    dirty_update_rects: vec![],
                    dirty_render_rects: vec![],
                    materials: materials(),
                });
            }
            for g in groups.iter_mut() {
                let rect = dirty_rects[&(g.group.center_pos.x, g.group.center_pos.y)];
                update_group(g, 1, &rect);
            }
            for g in groups {
                updated.push(g.group.center_pos);
                apply_dirty_updates(&mut new_dirty_rects, &g.dirty_update_rects);
                return_group(&mut chunks, g.group);
            }
        }
    }
    // Every chunk came back, each was the centre of exactly one group, and
    // no atom was made or lost.
    assert_eq!(chunks.len(), (LOAD_WIDTH * LOAD_HEIGHT) as usize);
    assert_eq!(updated.len(), chunks.len());
    updated.sort_by_key(|p| (p.x, p.y));
    updated.dedup();
    assert_eq!(updated.len(), chunks.len());
    assert_eq!([count(&chunks, 2), count(&chunks, 3), count(&chunks, 8)], before);
    // The sand on top of each chunk fell, so those chunks are dirty again.
    assert!(!new_dirty_rects.is_empty());
    let c = &chunks[&(0, 0)];
    assert_eq!(c.atoms[0].id, 0);
    assert_eq!(c.atoms[64].id, 2);
}
