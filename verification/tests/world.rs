//! World map queries, chunk coordinates and generation.

use rustmc::entities::EntityRegistry;
use rustmc::fixed::{div_floor, Vec3Fx, UNIT};
use rustmc::gamemap::{GameMap, AIR, STONE};
use rustmc::worldgen::{flat_chunk, new_gamemap, spawn_world_entities};

fn flat_heights() -> Vec<u8> {
    vec![8u8; 96 * 96]
}

fn flat_world() -> GameMap {
    new_gamemap(&flat_heights())
}

#[test]
fn div_floor_rounds_toward_negative_infinity() {
    assert_eq!(div_floor(0, 16), 0);
    assert_eq!(div_floor(15, 16), 0);
    assert_eq!(div_floor(16, 16), 1);
    assert_eq!(div_floor(-1, 16), -1);
    assert_eq!(div_floor(-16, 16), -1);
    assert_eq!(div_floor(-17, 16), -2);
    assert_eq!(div_floor(-1, 1000), -1);
    assert_eq!(div_floor(-1000, 1000), -1);
    assert_eq!(div_floor(-1001, 1000), -2);
}

#[test]
fn chunk_of_negative_coordinates() {
    let m = flat_world();
    // One milli-unit left of the origin lies in block -1, hence chunk -1.
    let (cx, cz) = m.query_chunk_by_xyz(Vec3Fx::new(-1, 0, -1));
    assert_eq!((cx, cz), (-1, -1));
    // x = -16 blocks is still chunk -1; one block further is chunk -2.
    let (cx, _) = m.query_chunk_by_xyz(Vec3Fx::new(-16 * UNIT, 0, 0));
    assert_eq!(cx, -1);
    let (cx, _) = m.query_chunk_by_xyz(Vec3Fx::new(-16 * UNIT - 1, 0, 0));
    assert_eq!(cx, -2);
}

#[test]
fn chunk_of_positive_coordinates() {
    let m = flat_world();
    let (cx, cz) = m.query_chunk_by_xyz(Vec3Fx::new(15_999, 0, 0));
    assert_eq!((cx, cz), (0, 0));
    let (cx, _) = m.query_chunk_by_xyz(Vec3Fx::new(16_000, 0, 0));
    assert_eq!(cx, 1);
}

#[test]
fn block_lookup_in_flat_world() {
    let m = flat_world();
    // Below the surface: stone.
    assert_eq!(m.query_block_by_xyz(Vec3Fx::new(500, 7_500, 500)), Some(STONE));
    // Above the surface: air.
    assert_eq!(m.query_block_by_xyz(Vec3Fx::new(500, 8_500, 500)), Some(AIR));
    // In a negative-coordinate chunk the same holds.
    assert_eq!(m.query_block_by_xyz(Vec3Fx::new(-500, 7_500, -500)), Some(STONE));
}

#[test]
fn block_lookup_out_of_range_is_none() {
    let m = flat_world();
    // Above the chunk height.
    assert_eq!(m.query_block_by_xyz(Vec3Fx::new(500, 16_500, 500)), None);
    // Below zero.
    assert_eq!(m.query_block_by_xyz(Vec3Fx::new(500, -500, 500)), None);
    // Outside the loaded chunks (x = 50 units is chunk 3).
    assert_eq!(m.query_block_by_xyz(Vec3Fx::new(50_000, 7_500, 500)), None);
}

#[test]
fn set_block_overwrites_in_place() {
    let mut m = flat_world();
    let p = Vec3Fx::new(500, 7_500, 500);
    assert_eq!(m.query_block_by_xyz(p), Some(STONE));
    m.set_block(p, AIR);
    assert_eq!(m.query_block_by_xyz(p), Some(AIR));
    // A neighbour block is untouched.
    assert_eq!(m.query_block_by_xyz(Vec3Fx::new(1_500, 7_500, 500)), Some(STONE));
}

#[test]
fn set_block_outside_world_is_noop() {
    let mut m = flat_world();
    m.set_block(Vec3Fx::new(50_000, 7_500, 500), STONE);
    assert_eq!(m.query_block_by_xyz(Vec3Fx::new(50_000, 7_500, 500)), None);
    m.set_block(Vec3Fx::new(500, 17_000, 500), STONE);
    assert_eq!(m.query_block_by_xyz(Vec3Fx::new(500, 17_000, 500)), None);
}

#[test]
fn flat_chunk_is_half_stone() {
    let c = flat_chunk();
    assert_eq!(c.get_local(0, 0, 0), STONE);
    assert_eq!(c.get_local(15, 7, 15), STONE);
    assert_eq!(c.get_local(0, 8, 0), AIR);
    assert_eq!(c.get_local(15, 15, 15), AIR);
    assert_eq!(c.entities.len(), 0);
}

#[test]
fn generated_world_has_starting_entities_in_center() {
    let m = flat_world();
    assert_eq!(m.map.len(), 36);
    let idx = m.find_chunk(0, 0).expect("center chunk");
    let center = &m.map[idx];
    assert_eq!(center.chunk.entities.len(), 4);
    assert_eq!(center.chunk.entities[0].health, 20);
    assert_eq!(center.chunk.entities[0].position, Vec3Fx::new(0, 16_000, 0));
    // Every other chunk starts without entities.
    let idx2 = m.find_chunk(-3, 2).expect("corner chunk");
    assert_eq!(m.map[idx2].chunk.entities.len(), 0);
}

#[test]
fn entering_a_world_registers_the_chunk_entities() {
    let m = flat_world();
    let mut reg = EntityRegistry::new();
    spawn_world_entities(&m, &mut reg);
    // A fresh world carries exactly the four starting entities, under the
    // ids 0..4 in chunk order.
    assert_eq!(reg.len(), 4);
    for (k, record) in reg.entities.iter().enumerate() {
        assert_eq!(record.id, k as u64);
        assert_eq!(record.status.health, 20);
    }
}

#[test]
fn generated_terrain_follows_height_field() {
    let mut heights = vec![8u8; 96 * 96];
    // Column (0, 0) of chunk (-3, -3) is the first column of the field.
    heights[0] = 16;
    let m = new_gamemap(&heights);
    // That column lies at world block x = -48, z = -48: stone all the way up.
    let p_top = Vec3Fx::new(-48 * UNIT + 500, 15_500, -48 * UNIT + 500);
    assert_eq!(m.query_block_by_xyz(p_top), Some(STONE));
    // An ordinary column is air at the same height.
    assert_eq!(m.query_block_by_xyz(Vec3Fx::new(500, 15_500, 500)), Some(AIR));
}
