//! Event queues, the cooldown-gated dispatch, walking and wandering.

use rustmc::control::{
    isqrt_u64, operate, walk, wander_step, ATTACK_DAMAGE, MAX_VELOCITY, PLAYER_ATTACK_CD,
    WANDER_ACT_ROLL, WANDER_STOP_ROLL,
};
use rustmc::entities::{
    collide_with, get_collision_box_by_type, EntityRegistry, EntityStatus, EntityType,
};
use rustmc::fixed::Vec3Fx;
use rustmc::gamemap::{GameMap, AIR, STONE};
use rustmc::interaction::{
    handle_block_events, handle_entity_events, send_event_to_block, send_event_to_entity,
    EventQueue, GameEventOpration, PlayerTarget, KNOCKBACK,
};
use rustmc::worldgen::new_gamemap;

fn flat_world() -> GameMap {
    new_gamemap(&vec![8u8; 96 * 96])
}

fn player() -> EntityStatus {
    EntityStatus {
        entity_type: EntityType::MainPlayer,
        health: 20,
        position: Vec3Fx::new(0, 8_500, 0),
        rotation: 0,
        scaling: Vec3Fx::new(1000, 1000, 1000),
        velocity: Vec3Fx::zero(),
        attack_cd: 0,
    }
}

#[test]
fn attack_on_cooldown_queues_nothing() {
    // A player with 0.3 s of cooldown left gets no damage event queued.
    let mut p = player();
    p.attack_cd = 300;
    let mut q = EventQueue::new();
    let target = PlayerTarget { entity_id: Some(7), block: None };
    operate(&mut p, &target, true, false, &mut q);
    assert_eq!(q.entity_events.len(), 0);
    assert_eq!(p.attack_cd, 300);
}

#[test]
fn attack_when_ready_queues_damage_and_resets_cooldown() {
    // A player whose cooldown is spent (-0.1 s) lands the hit and the
    // cooldown resets to 0.5 s.
    let mut p = player();
    p.attack_cd = -100;
    let mut q = EventQueue::new();
    let target = PlayerTarget { entity_id: Some(7), block: None };
    operate(&mut p, &target, true, false, &mut q);
    assert_eq!(q.entity_events.len(), 1);
    assert_eq!(q.entity_events[0].target, 7);
    assert!(matches!(q.entity_events[0].operation, GameEventOpration::HIT(d) if d == ATTACK_DAMAGE));
    assert_eq!(p.attack_cd, PLAYER_ATTACK_CD);
}

#[test]
fn use_on_entity_is_not_gated() {
    let mut p = player();
    p.attack_cd = 300;
    let mut q = EventQueue::new();
    let target = PlayerTarget { entity_id: Some(3), block: None };
    operate(&mut p, &target, false, true, &mut q);
    assert_eq!(q.entity_events.len(), 1);
    assert!(matches!(q.entity_events[0].operation, GameEventOpration::USE));
    assert_eq!(p.attack_cd, 300);
}

#[test]
fn block_hit_is_not_gated_and_carries_no_damage() {
    let mut p = player();
    p.attack_cd = 300;
    let mut q = EventQueue::new();
    let pos = Vec3Fx::new(1_500, 8_500, 500);
    let target = PlayerTarget { entity_id: None, block: Some(pos) };
    operate(&mut p, &target, true, false, &mut q);
    assert_eq!(q.block_events.len(), 1);
    assert_eq!(q.block_events[0].target_position, pos);
    assert!(matches!(q.block_events[0].operation, GameEventOpration::HIT(0)));
}

#[test]
fn hit_event_damages_and_knocks_back() {
    let mut reg = EntityRegistry::new();
    let id = reg.spawn(player());
    let mut q = EventQueue::new();
    send_event_to_entity(&mut q, id, GameEventOpration::HIT(5));
    handle_entity_events(&mut reg, &mut q);
    let s = reg.get_status(id).unwrap();
    assert_eq!(s.health, 15);
    assert_eq!(s.velocity.y, KNOCKBACK);
    assert_eq!(q.entity_events.len(), 0);
}

#[test]
fn events_for_despawned_targets_fall_through() {
    let mut reg = EntityRegistry::new();
    let id = reg.spawn(player());
    let mut q = EventQueue::new();
    send_event_to_entity(&mut q, id + 1, GameEventOpration::HIT(5));
    handle_entity_events(&mut reg, &mut q);
    assert_eq!(reg.get_status(id).unwrap().health, 20);
}

#[test]
fn block_hit_turns_the_block_to_air() {
    let mut m = flat_world();
    let p = Vec3Fx::new(500, 7_500, 500);
    assert_eq!(m.query_block_by_xyz(p), Some(STONE));
    let mut q = EventQueue::new();
    send_event_to_block(&mut q, p, GameEventOpration::HIT(0));
    handle_block_events(&mut m, &mut q);
    assert_eq!(m.query_block_by_xyz(p), Some(AIR));
    assert_eq!(q.block_events.len(), 0);
}

#[test]
fn block_use_changes_nothing() {
    let mut m = flat_world();
    let p = Vec3Fx::new(500, 7_500, 500);
    let mut q = EventQueue::new();
    send_event_to_block(&mut q, p, GameEventOpration::USE);
    handle_block_events(&mut m, &mut q);
    assert_eq!(m.query_block_by_xyz(p), Some(STONE));
}

#[test]
fn isqrt_exact_values() {
    assert_eq!(isqrt_u64(0), 0);
    assert_eq!(isqrt_u64(1), 1);
    assert_eq!(isqrt_u64(2), 1);
    assert_eq!(isqrt_u64(3), 1);
    assert_eq!(isqrt_u64(4), 2);
    assert_eq!(isqrt_u64(15), 3);
    assert_eq!(isqrt_u64(16), 4);
    assert_eq!(isqrt_u64(2_000_000), 1414);
    assert_eq!(isqrt_u64(u64::MAX), 4_294_967_295);
}

#[test]
fn walk_forward_caps_at_max_velocity() {
    let mut p = player();
    let forward = Vec3Fx::new(1000, 0, 0);
    walk(&mut p, forward, true, false, false, false, false, false);
    assert_eq!(p.velocity, Vec3Fx::new(MAX_VELOCITY, 0, 0));
}

#[test]
fn walk_diagonal_is_normalized() {
    let mut p = player();
    let forward = Vec3Fx::new(1000, 0, 0);
    // Forward plus left: the raw sum is (1000, -1000) on the xz plane.
    // Its magnitude rounds up to 1415, and 4_000_000 / 1415 truncates to
    // 2826 per axis, keeping the speed under the cap.
    walk(&mut p, forward, true, true, false, false, false, false);
    assert_eq!(p.velocity.x, 2_826);
    assert_eq!(p.velocity.z, -2_826);
    let vx = p.velocity.x as i128;
    let vz = p.velocity.z as i128;
    assert!(vx * vx + vz * vz <= (MAX_VELOCITY as i128) * (MAX_VELOCITY as i128));
}

#[test]
fn walk_cap_holds_for_oblique_negative_directions() {
    // A direction with both components negative: rounding toward zero and
    // the rounded-up magnitude keep the speed within the cap (flooring
    // either would push it over).
    let mut p = player();
    let forward = Vec3Fx::new(-1000, 0, -45);
    walk(&mut p, forward, true, false, false, false, false, false);
    // |(-1000, -45)| rounds up to 1002: -4_000_000 / 1002 and
    // -180_000 / 1002 truncate to -3992 and -179.
    assert_eq!(p.velocity.x, -3_992);
    assert_eq!(p.velocity.z, -179);
    let vx = p.velocity.x as i128;
    let vz = p.velocity.z as i128;
    assert!(vx * vx + vz * vz <= (MAX_VELOCITY as i128) * (MAX_VELOCITY as i128));
}

#[test]
fn walk_jump_and_sink_override_vertical_velocity() {
    let mut p = player();
    let forward = Vec3Fx::new(1000, 0, 0);
    walk(&mut p, forward, false, false, false, false, true, false);
    assert_eq!(p.velocity, Vec3Fx::new(0, MAX_VELOCITY, 0));
    walk(&mut p, forward, false, false, false, false, true, true);
    assert_eq!(p.velocity.y, -MAX_VELOCITY);
}

#[test]
fn wander_step_outcomes() {
    let dir = Vec3Fx::new(1000, 0, 0);
    // No action roll: nothing changes.
    let mut s = player();
    s.velocity = Vec3Fx::new(700, 0, 900);
    wander_step(&mut s, dir, 3_000, 1_234, WANDER_ACT_ROLL, 0);
    assert_eq!(s.velocity, Vec3Fx::new(700, 0, 900));
    // Action and stop: the horizontal velocity is zeroed.
    wander_step(&mut s, dir, 3_000, 1_234, 0, WANDER_STOP_ROLL - 1);
    assert_eq!(s.velocity, Vec3Fx::new(0, 0, 0));
    // Action and turn: the entity walks along the direction at the given
    // speed and takes the new yaw.
    wander_step(&mut s, dir, 3_000, 1_234, 0, WANDER_STOP_ROLL);
    assert_eq!(s.velocity.x, 3_000);
    assert_eq!(s.velocity.z, 0);
    assert_eq!(s.rotation, 1_234);
}

#[test]
fn collision_boxes_and_overlap() {
    let creeper = get_collision_box_by_type(EntityType::Creeper);
    assert_eq!(creeper.min, Vec3Fx::new(-300, 0, -300));
    assert_eq!(creeper.max, Vec3Fx::new(300, 1_800, 300));
    let torch = get_collision_box_by_type(EntityType::Torch);
    assert_eq!(torch.max, Vec3Fx::new(100, 700, 100));
    // Strict overlap: a point on the face does not collide.
    let min1 = Vec3Fx::new(0, 0, 0);
    let max1 = Vec3Fx::new(1_000, 1_000, 1_000);
    let inside = Vec3Fx::new(500, 500, 500);
    let face = Vec3Fx::new(1_000, 500, 500);
    assert!(collide_with(min1, max1, inside, inside));
    assert!(!collide_with(min1, max1, face, face));
}
