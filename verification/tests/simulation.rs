//! The fixed-timestep simulator: collision, gravity, cooldowns, death.

use rustmc::entities::{EntityRegistry, EntityStatus, EntityType};
use rustmc::fixed::Vec3Fx;
use rustmc::gamemap::{GameMap, STONE};
use rustmc::simulate::{die, entity_move, gravity, simulate_tick};
use rustmc::worldgen::new_gamemap;

fn flat_world() -> GameMap {
    new_gamemap(&vec![8u8; 96 * 96])
}

fn entity_at(x: i64, y: i64, z: i64) -> EntityStatus {
    EntityStatus {
        entity_type: EntityType::Creeper,
        health: 20,
        position: Vec3Fx::new(x, y, z),
        rotation: 0,
        scaling: Vec3Fx::new(1000, 1000, 1000),
        velocity: Vec3Fx::zero(),
        attack_cd: 0,
    }
}

#[test]
fn falling_entity_stops_at_the_floor() {
    // 0.2 units above the stone surface, falling at 2 units per second.
    let m = flat_world();
    let mut s = entity_at(500, 8_200, 500);
    s.velocity.y = -2_000;
    // dt = 200 ms: the candidate y is 7800, inside stone, so y reverts and
    // the vertical velocity is zeroed (collision non-penetration).
    entity_move(&mut s, &m, 200);
    assert_eq!(s.position, Vec3Fx::new(500, 8_200, 500));
    assert_eq!(s.velocity.y, 0);
}

#[test]
fn blocked_horizontal_axis_reverts_and_zeroes() {
    let mut m = flat_world();
    // A stone block one block ahead at head height.
    m.set_block(Vec3Fx::new(1_500, 8_500, 500), STONE);
    let mut s = entity_at(900, 8_500, 500);
    s.velocity.x = 2_000;
    // dt = 500 ms: candidate x = 1900 crosses into block 1, which is solid.
    entity_move(&mut s, &m, 500);
    assert_eq!(s.position.x, 900);
    assert_eq!(s.velocity.x, 0);
    // The other axes were free and unchanged.
    assert_eq!(s.position.y, 8_500);
    assert_eq!(s.position.z, 500);
}

#[test]
fn free_movement_integrates_velocity() {
    let m = flat_world();
    let mut s = entity_at(500, 10_000, 500);
    s.velocity = Vec3Fx::new(1_000, 500, -2_000);
    entity_move(&mut s, &m, 100);
    // Each axis moves v * dt / 1000 milli-units.
    assert_eq!(s.position, Vec3Fx::new(600, 10_050, 300));
    assert_eq!(s.velocity, Vec3Fx::new(1_000, 500, -2_000));
}

#[test]
fn attack_cooldown_decays_every_tick_without_floor() {
    let m = flat_world();
    let mut s = entity_at(500, 10_000, 500);
    s.attack_cd = 30;
    entity_move(&mut s, &m, 16);
    assert_eq!(s.attack_cd, 14);
    entity_move(&mut s, &m, 16);
    assert_eq!(s.attack_cd, -2);
    entity_move(&mut s, &m, 16);
    assert_eq!(s.attack_cd, -18);
}

#[test]
fn vertical_is_resolved_before_horizontal_sliding() {
    // Moving diagonally down and forward into the floor: the vertical axis
    // is resolved first, so the entity keeps sliding forward along the
    // floor instead of stopping dead.
    let m = flat_world();
    let mut s = entity_at(700, 8_300, 500);
    s.velocity = Vec3Fx::new(1_000, -1_000, 0);
    entity_move(&mut s, &m, 500);
    assert_eq!(s.position, Vec3Fx::new(1_200, 8_300, 500));
    assert_eq!(s.velocity, Vec3Fx::new(1_000, 0, 0));
}

#[test]
fn corner_hit_blocks_both_axes_in_order() {
    // With a wall one block ahead as well, the y revert happens first and
    // the x revert second; both velocity components end up zero.
    let mut m = flat_world();
    m.set_block(Vec3Fx::new(1_500, 8_500, 500), STONE);
    let mut s = entity_at(700, 8_300, 500);
    s.velocity = Vec3Fx::new(1_000, -1_000, 0);
    entity_move(&mut s, &m, 500);
    assert_eq!(s.position, Vec3Fx::new(700, 8_300, 500));
    assert_eq!(s.velocity, Vec3Fx::new(0, 0, 0));
}

#[test]
fn a_dropped_entity_lands_on_the_surface_and_stays() {
    // Gravity convergence, end to end: the entity accumulates downward
    // velocity, lands on the stone surface and never sinks below it.
    let m = flat_world();
    let mut reg = EntityRegistry::new();
    let id = reg.spawn(entity_at(500, 12_000, 500));
    for _ in 0..600 {
        simulate_tick(&mut reg, &m, 16);
        let s = reg.get_status(id).unwrap();
        assert!(s.position.y >= 8_000);
    }
    let s = reg.get_status(id).unwrap();
    // At rest just above the surface, no longer moving downward.
    assert!(s.position.y < 8_300);
    assert!(s.velocity.y <= 0);
    let y_before = s.position.y;
    simulate_tick(&mut reg, &m, 16);
    assert_eq!(reg.get_status(id).unwrap().position.y, y_before);
}

#[test]
fn gravity_accelerates_downward_in_air() {
    // Gravity convergence: in the air the vertical velocity strictly
    // decreases every tick.
    let m = flat_world();
    let mut s = entity_at(500, 12_000, 500);
    gravity(&mut s, &m, 16);
    assert_eq!(s.velocity.y, -156);
    gravity(&mut s, &m, 16);
    assert_eq!(s.velocity.y, -312);
    let mut last = s.velocity.y;
    for _ in 0..100 {
        gravity(&mut s, &m, 16);
        assert!(s.velocity.y < last);
        last = s.velocity.y;
    }
}

#[test]
fn gravity_clamps_upward_on_solid_ground() {
    let m = flat_world();
    // Standing inside the stone surface block.
    let mut s = entity_at(500, 7_500, 500);
    s.velocity.y = -500;
    gravity(&mut s, &m, 16);
    assert_eq!(s.velocity.y, 0);
    // An upward component passes through unchanged.
    s.velocity.y = 300;
    gravity(&mut s, &m, 16);
    assert_eq!(s.velocity.y, 300);
}

#[test]
fn entity_beyond_the_world_edge_falls_forever() {
    let m = flat_world();
    // x = 100 units: no chunk there, treated as air.
    let mut s = entity_at(100_000, 7_500, 500);
    gravity(&mut s, &m, 16);
    assert_eq!(s.velocity.y, -156);
}

#[test]
fn death_pass_removes_dead_entities() {
    let mut reg = EntityRegistry::new();
    let a = reg.spawn(entity_at(0, 10_000, 0));
    let b = reg.spawn(entity_at(1_000, 10_000, 0));
    let c = reg.spawn(entity_at(2_000, 10_000, 0));
    reg.entities[1].status.health = 0;
    die(&mut reg);
    assert_eq!(reg.len(), 2);
    assert!(reg.find_index(a).is_some());
    assert!(reg.find_index(b).is_none());
    assert!(reg.find_index(c).is_some());
}

#[test]
fn death_is_permanent_across_ticks() {
    // Death idempotence: once removed, an entity does not appear in any
    // later tick, and its id is never handed out again.
    let m = flat_world();
    let mut reg = EntityRegistry::new();
    let a = reg.spawn(entity_at(500, 12_000, 500));
    let b = reg.spawn(entity_at(1_500, 12_000, 500));
    reg.entities[0].status.health = -3;
    simulate_tick(&mut reg, &m, 16);
    assert!(reg.find_index(a).is_none());
    assert!(reg.find_index(b).is_some());
    simulate_tick(&mut reg, &m, 16);
    assert!(reg.find_index(a).is_none());
    let fresh = reg.spawn(entity_at(0, 12_000, 0));
    assert_ne!(fresh, a);
    assert_ne!(fresh, b);
}

#[test]
fn simulate_tick_moves_and_applies_gravity() {
    let m = flat_world();
    let mut reg = EntityRegistry::new();
    let id = reg.spawn(entity_at(500, 12_000, 500));
    simulate_tick(&mut reg, &m, 16);
    let s = reg.get_status(id).expect("entity is live");
    // It did not move (velocity was zero) but gravity kicked in and the
    // cooldown decayed.
    assert_eq!(s.position, Vec3Fx::new(500, 12_000, 500));
    assert_eq!(s.velocity.y, -156);
    assert_eq!(s.attack_cd, -16);
    // The next tick moves it down by floor(-156 * 16 / 1000) = -3
    // milli-units (displacement floors toward negative infinity).
    simulate_tick(&mut reg, &m, 16);
    let s = reg.get_status(id).expect("entity is live");
    assert_eq!(s.position.y, 12_000 - 3);
    assert_eq!(s.velocity.y, -312);
}
