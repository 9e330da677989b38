//! Sight-line target resolution: nearest first, entities before blocks.

use rustmc::entities::{EntityRegistry, EntityStatus, EntityType};
use rustmc::fixed::Vec3Fx;
use rustmc::gamemap::{GameMap, STONE};
use rustmc::target::player_find_target;
use rustmc::worldgen::new_gamemap;

fn flat_world() -> GameMap {
    new_gamemap(&vec![8u8; 96 * 96])
}

fn creeper_at(x: i64, y: i64, z: i64) -> EntityStatus {
    EntityStatus {
        entity_type: EntityType::Creeper,
        health: 20,
        position: Vec3Fx::new(x, y, z),
        rotation: 0,
        scaling: Vec3Fx::new(1000, 1000, 1000),
        velocity: Vec3Fx::zero(),
        attack_cd: 0,
    }
}

#[test]
fn nearer_entity_outranks_block() {
    // A solid block ahead on the ray and an entity nearer than it: the
    // entity wins.
    let mut m = flat_world();
    let center = Vec3Fx::new(500, 8_500, 500);
    let forward = Vec3Fx::new(1000, 0, 0);
    // Solid block in block (1, 8, 0): first hit at sample 5 (x = 1000).
    m.set_block(Vec3Fx::new(1_500, 8_500, 500), STONE);
    let mut reg = EntityRegistry::new();
    // Creeper whose box spans x in (400, 1000): first containment at
    // sample 0 already (x = 500).
    let id = reg.spawn(creeper_at(700, 8_000, 500));
    let t = player_find_target(&reg, &m, center, forward);
    assert_eq!(t.entity_id, Some(id));
    assert_eq!(t.block, None);
}

#[test]
fn block_alone_is_targeted_at_its_first_sample() {
    let mut m = flat_world();
    let center = Vec3Fx::new(500, 8_500, 500);
    let forward = Vec3Fx::new(1000, 0, 0);
    m.set_block(Vec3Fx::new(1_500, 8_500, 500), STONE);
    let reg = EntityRegistry::new();
    let t = player_find_target(&reg, &m, center, forward);
    assert_eq!(t.entity_id, None);
    // Sample 5 is the first point inside block 1: 500 + 5 * 100 = 1000.
    assert_eq!(t.block, Some(Vec3Fx::new(1_000, 8_500, 500)));
}

#[test]
fn nothing_in_range_yields_no_target() {
    let m = flat_world();
    let center = Vec3Fx::new(500, 8_500, 500);
    let forward = Vec3Fx::new(1000, 0, 0);
    let reg = EntityRegistry::new();
    let t = player_find_target(&reg, &m, center, forward);
    assert_eq!(t.entity_id, None);
    assert_eq!(t.block, None);
}

#[test]
fn the_viewer_itself_is_never_a_target() {
    let m = flat_world();
    let center = Vec3Fx::new(500, 8_500, 500);
    let forward = Vec3Fx::new(1000, 0, 0);
    let mut reg = EntityRegistry::new();
    let mut viewer = creeper_at(500, 8_000, 500);
    viewer.entity_type = EntityType::MainPlayer;
    reg.spawn(viewer);
    let t = player_find_target(&reg, &m, center, forward);
    assert_eq!(t.entity_id, None);
    assert_eq!(t.block, None);
}

#[test]
fn entity_beyond_a_block_loses_to_the_block() {
    // The block is hit at sample 5; the entity only contains points from
    // sample 11 on, so the block wins.
    let mut m = flat_world();
    let center = Vec3Fx::new(500, 8_500, 500);
    let forward = Vec3Fx::new(1000, 0, 0);
    m.set_block(Vec3Fx::new(1_500, 8_500, 500), STONE);
    let mut reg = EntityRegistry::new();
    // Box spans x in (1700, 2300): behind the block.
    reg.spawn(creeper_at(2_000, 8_000, 500));
    let t = player_find_target(&reg, &m, center, forward);
    assert_eq!(t.entity_id, None);
    assert_eq!(t.block, Some(Vec3Fx::new(1_000, 8_500, 500)));
}
