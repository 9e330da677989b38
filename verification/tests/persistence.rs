//! Save encoding and decoding: the round trip and the malformed saves.

use rustmc::codec::{decode_gamemap, encode_gamemap};
use rustmc::fixed::{Vec3Fx, POS_LIMIT};
use rustmc::gamemap::GameMap;
use rustmc::worldgen::new_gamemap;

fn varied_world() -> GameMap {
    let mut heights = vec![8u8; 96 * 96];
    for (i, h) in heights.iter_mut().enumerate() {
        *h = 1 + (i % 16) as u8;
    }
    new_gamemap(&heights)
}

#[test]
fn save_then_load_reproduces_the_world() {
    // Generating a world, saving it and loading it back yields the same
    // chunks: identical keys, block ids and entity records.
    let m = varied_world();
    let words = encode_gamemap(&m);
    let m2 = decode_gamemap(&words).expect("a fresh save decodes");
    assert_eq!(m2.map.len(), m.map.len());
    for (a, b) in m.map.iter().zip(m2.map.iter()) {
        assert_eq!((a.cx, a.cz), (b.cx, b.cz));
        assert_eq!(a.chunk.blocks, b.chunk.blocks);
        assert_eq!(a.chunk.entities, b.chunk.entities);
    }
}

#[test]
fn reencoding_a_loaded_world_is_stable() {
    let m = varied_world();
    let words = encode_gamemap(&m);
    let m2 = decode_gamemap(&words).unwrap();
    let words2 = encode_gamemap(&m2);
    assert_eq!(words, words2);
}

fn tiny_save(entity_words: &[i64]) -> Vec<i64> {
    // One chunk at (0, 0), all air, holding the given entity records.
    let mut w = vec![1i64, 0, 0];
    w.extend(std::iter::repeat(-1i64).take(4096));
    w.push((entity_words.len() / 13) as i64);
    w.extend_from_slice(entity_words);
    w
}

fn creeper_words() -> Vec<i64> {
    vec![2, 20, 0, 16_000, 0, 0, 1000, 1000, 1000, 0, 0, 0, 0]
}

#[test]
fn a_tiny_handwritten_save_decodes() {
    let w = tiny_save(&creeper_words());
    let m = decode_gamemap(&w).expect("well-formed save");
    assert_eq!(m.map.len(), 1);
    assert_eq!(m.map[0].chunk.entities.len(), 1);
    assert_eq!(m.map[0].chunk.entities[0].health, 20);
    assert_eq!(m.map[0].chunk.entities[0].position, Vec3Fx::new(0, 16_000, 0));
}

#[test]
fn truncated_save_is_rejected() {
    let mut w = tiny_save(&creeper_words());
    w.pop();
    assert!(decode_gamemap(&w).is_none());
    assert!(decode_gamemap(&vec![]).is_none());
    assert!(decode_gamemap(&vec![1]).is_none());
}

#[test]
fn trailing_garbage_is_rejected() {
    let mut w = tiny_save(&creeper_words());
    w.push(0);
    assert!(decode_gamemap(&w).is_none());
}

#[test]
fn unknown_entity_kind_is_rejected() {
    let mut e = creeper_words();
    e[0] = 99;
    assert!(decode_gamemap(&tiny_save(&e)).is_none());
}

#[test]
fn out_of_range_health_is_rejected() {
    let mut e = creeper_words();
    e[1] = 1i64 << 40;
    assert!(decode_gamemap(&tiny_save(&e)).is_none());
}

#[test]
fn out_of_range_position_is_rejected() {
    let mut e = creeper_words();
    e[3] = POS_LIMIT + 1;
    assert!(decode_gamemap(&tiny_save(&e)).is_none());
}

#[test]
fn out_of_range_block_id_is_rejected() {
    let mut w = tiny_save(&creeper_words());
    w[3] = 1i64 << 40;
    assert!(decode_gamemap(&w).is_none());
}

#[test]
fn negative_counts_are_rejected() {
    assert!(decode_gamemap(&vec![-1]).is_none());
    let mut w = tiny_save(&[]);
    let count_at = w.len() - 1;
    w[count_at] = -2;
    assert!(decode_gamemap(&w).is_none());
}

#[test]
fn duplicate_chunk_keys_are_rejected() {
    let one = tiny_save(&[]);
    let entry = &one[1..];
    let mut w = vec![2i64];
    w.extend_from_slice(entry);
    w.extend_from_slice(entry);
    assert!(decode_gamemap(&w).is_none());
}
