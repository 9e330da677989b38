//! World generation: terrain chunks built from a height field (one height
//! per column, computed outside from noise), a flat test chunk, and the
//! fresh world of `CHUNK_LEN x CHUNK_LEN` chunks with the starting
//! entities in the center chunk.

use vstd::prelude::*;

verus! {

use crate::entities::EntityRegistry;
use crate::entities::EntityStatus;
use crate::entities::EntityType;
use crate::fixed::Vec3Fx;
use crate::gamemap::Chunk;
use crate::gamemap::ChunkEntry;
use crate::gamemap::GameMap;
use crate::gamemap::AIR;
use crate::gamemap::CHUNK_HEIGHT;
use crate::gamemap::CHUNK_LEN;
use crate::gamemap::CHUNK_SIZE;
use crate::gamemap::STONE;

/// Blocks along one edge of a freshly generated world.
pub const WORLD_SIZE: usize = CHUNK_LEN * CHUNK_SIZE;

/// The block a terrain column holds at height `ly`: stone below the
/// column's surface height, air above it.
pub open spec fn terrain_block(h: u8, ly: int) -> i32 {
    if ly < h as int {
        STONE
    } else {
        AIR
    }
}

/// Build one chunk from a 16 x 16 column height field (x-major), with no
/// entities: each column is stone below its height and air above.
pub fn terrain_chunk(heights: &Vec<u8>) -> (c: Chunk)
    requires
        heights@.len() == CHUNK_SIZE * CHUNK_SIZE,
        forall|i: int| 0 <= i < heights@.len() ==> 1 <= #[trigger] heights@[i] <= CHUNK_HEIGHT,
    ensures
        c.wf(),
        c.entities@.len() == 0,
        forall|lx: int, ly: int, lz: int|
            0 <= lx < CHUNK_SIZE && 0 <= ly < CHUNK_HEIGHT && 0 <= lz < CHUNK_SIZE
                ==> #[trigger] c.local_block(lx, ly, lz) == terrain_block(
                heights@[lx * (CHUNK_SIZE as int) + lz],
                ly,
            ),
{
    let mut blocks: Vec<i32> = Vec::new();
    let mut lx: usize = 0;
    while lx < CHUNK_SIZE
        invariant
            heights@.len() == CHUNK_SIZE * CHUNK_SIZE,
            forall|i: int| 0 <= i < heights@.len() ==> 1 <= #[trigger] heights@[i] <= CHUNK_HEIGHT,
            lx <= CHUNK_SIZE,
            blocks@.len() == lx * 256,
            forall|a: int, b: int, d: int|
                0 <= a < lx && 0 <= b < CHUNK_HEIGHT && 0 <= d < CHUNK_SIZE ==> #[trigger] blocks@[
                    Chunk::block_index(a, b, d)
                ] == terrain_block(heights@[a * (CHUNK_SIZE as int) + d], b),
        decreases CHUNK_SIZE - lx,
    {
        let mut ly: usize = 0;
        while ly < CHUNK_HEIGHT
            invariant
                heights@.len() == CHUNK_SIZE * CHUNK_SIZE,
                forall|i: int| 0 <= i < heights@.len() ==> 1 <= #[trigger] heights@[i]
                    <= CHUNK_HEIGHT,
                lx < CHUNK_SIZE,
                ly <= CHUNK_HEIGHT,
                blocks@.len() == lx * 256 + ly * 16,
                forall|a: int, b: int, d: int|
                    0 <= a < lx && 0 <= b < CHUNK_HEIGHT && 0 <= d < CHUNK_SIZE ==> #[trigger] blocks@[
                        Chunk::block_index(a, b, d)
                    ] == terrain_block(heights@[a * (CHUNK_SIZE as int) + d], b),
                forall|b: int, d: int|
                    0 <= b < ly && 0 <= d < CHUNK_SIZE ==> #[trigger] blocks@[Chunk::block_index(
                        lx as int,
                        b,
                        d,
                    )] == terrain_block(heights@[lx as int * (CHUNK_SIZE as int) + d], b),
            decreases CHUNK_HEIGHT - ly,
        {
            let mut lz: usize = 0;
            while lz < CHUNK_SIZE
                invariant
                    heights@.len() == CHUNK_SIZE * CHUNK_SIZE,
                    forall|i: int| 0 <= i < heights@.len() ==> 1 <= #[trigger] heights@[i]
                        <= CHUNK_HEIGHT,
                    lx < CHUNK_SIZE,
                    ly < CHUNK_HEIGHT,
                    lz <= CHUNK_SIZE,
                    blocks@.len() == lx * 256 + ly * 16 + lz,
                    forall|a: int, b: int, d: int|
                        0 <= a < lx && 0 <= b < CHUNK_HEIGHT && 0 <= d < CHUNK_SIZE
                            ==> #[trigger] blocks@[Chunk::block_index(a, b, d)] == terrain_block(
                            heights@[a * (CHUNK_SIZE as int) + d],
                            b,
                        ),
                    forall|b: int, d: int|
                        0 <= b < ly && 0 <= d < CHUNK_SIZE ==> #[trigger] blocks@[Chunk::block_index(
                            lx as int,
                            b,
                            d,
                        )] == terrain_block(heights@[lx as int * (CHUNK_SIZE as int) + d], b),
                    forall|d: int|
                        0 <= d < lz ==> #[trigger] blocks@[Chunk::block_index(lx as int, ly as int, d)]
                            == terrain_block(heights@[lx as int * (CHUNK_SIZE as int) + d], ly as int),
                decreases CHUNK_SIZE - lz,
            {
                let h = heights[lx * CHUNK_SIZE + lz];
                let id = if (ly as u8) < h {
                    STONE
                } else {
                    AIR
                };
                blocks.push(id);
                lz = lz + 1;
            }
            ly = ly + 1;
        }
        lx = lx + 1;
    }
    Chunk { blocks, entities: Vec::new() }
}

/// Build the flat test chunk: stone in the lower half of every column, air
/// above, no entities.
pub fn flat_chunk() -> (c: Chunk)
    ensures
        c.wf(),
        c.entities@.len() == 0,
        forall|lx: int, ly: int, lz: int|
            0 <= lx < CHUNK_SIZE && 0 <= ly < CHUNK_HEIGHT && 0 <= lz < CHUNK_SIZE
                ==> #[trigger] c.local_block(lx, ly, lz) == (if ly < CHUNK_HEIGHT as int / 2 {
                STONE
            } else {
                AIR
            }),
{
    let mut heights: Vec<u8> = Vec::new();
    let mut i: usize = 0;
    while i < CHUNK_SIZE * CHUNK_SIZE
        invariant
            i <= CHUNK_SIZE * CHUNK_SIZE,
            heights@.len() == i,
            forall|j: int| 0 <= j < i ==> #[trigger] heights@[j] == (CHUNK_HEIGHT / 2) as u8,
        decreases CHUNK_SIZE * CHUNK_SIZE - i,
    {
        heights.push((CHUNK_HEIGHT / 2) as u8);
        i = i + 1;
    }
    terrain_chunk(&heights)
}

/// The status a freshly spawned entity starts with: full health, at rest,
/// facing forward, unit scaling, no cooldown.
pub open spec fn spawn_status(t: EntityType, x: i64, y: i64, z: i64) -> EntityStatus {
    EntityStatus {
        entity_type: t,
        health: 20,
        position: Vec3Fx { x, y, z },
        rotation: 0,
        scaling: Vec3Fx { x: 1000, y: 1000, z: 1000 },
        velocity: Vec3Fx { x: 0, y: 0, z: 0 },
        attack_cd: 0,
    }
}

/// The entities a fresh world starts with, all in the center chunk: the
/// main player at the origin on top of the terrain, a second player and
/// two creepers nearby.
pub open spec fn initial_entities() -> Seq<EntityStatus> {
    seq![
        spawn_status(EntityType::MainPlayer, 0, 16000, 0),
        spawn_status(EntityType::Creeper, 5000, 16000, -10000i64),
        spawn_status(EntityType::Player, 10000, 16000, -10000i64),
        spawn_status(EntityType::Creeper, 10000, 16000, -8000i64),
    ]
}

/// Build one spawned entity.
fn make_spawn(t: EntityType, x: i64, y: i64, z: i64) -> (r: EntityStatus)
    ensures
        r == spawn_status(t, x, y, z),
{
    EntityStatus {
        entity_type: t,
        health: 20,
        position: Vec3Fx { x, y, z },
        rotation: 0,
        scaling: Vec3Fx { x: 1000, y: 1000, z: 1000 },
        velocity: Vec3Fx { x: 0, y: 0, z: 0 },
        attack_cd: 0,
    }
}

/// What one slot of a freshly generated world must hold: a chunk key in
/// the generated square, terrain blocks matching the world height field,
/// and the starting entities exactly in the center chunk.
pub open spec fn generated_entry(e: ChunkEntry, heights: Seq<u8>) -> bool {
    &&& -3 <= e.cx < 3
    &&& -3 <= e.cz < 3
    &&& e.chunk.wf()
    &&& forall|lx: int, ly: int, lz: int|
        0 <= lx < CHUNK_SIZE && 0 <= ly < CHUNK_HEIGHT && 0 <= lz < CHUNK_SIZE
            ==> #[trigger] e.chunk.local_block(lx, ly, lz) == terrain_block(
            heights[((e.cx + 3) * (CHUNK_SIZE as int) + lx) * (WORLD_SIZE as int) + (e.cz + 3) * (
            CHUNK_SIZE as int) + lz],
            ly,
        )
    &&& e.chunk.entities@ == (if e.cx == 0 && e.cz == 0 {
        initial_entities()
    } else {
        Seq::<EntityStatus>::empty()
    })
}

/// Generate a fresh world: a `CHUNK_LEN x CHUNK_LEN` square of terrain
/// chunks centered on the origin, built from a world-sized height field
/// (one byte per column, x-major), with the starting entities in the
/// center chunk.
pub fn new_gamemap(heights: &Vec<u8>) -> (m: GameMap)
    requires
        heights@.len() == WORLD_SIZE * WORLD_SIZE,
        forall|i: int| 0 <= i < heights@.len() ==> 1 <= #[trigger] heights@[i] <= CHUNK_HEIGHT,
    ensures
        m.wf(),
        m.map@.len() == CHUNK_LEN * CHUNK_LEN,
        forall|cx: int, cz: int| -3 <= cx < 3 && -3 <= cz < 3 ==> m.has_chunk(cx, cz),
        forall|i: int|
            0 <= i < m.map@.len() ==> generated_entry(#[trigger] m.map@[i], heights@),
{
    let mut m = GameMap { map: Vec::new() };
    let mut x: i64 = -3;
    while x < 3
        invariant
            heights@.len() == WORLD_SIZE * WORLD_SIZE,
            forall|i: int| 0 <= i < heights@.len() ==> 1 <= #[trigger] heights@[i] <= CHUNK_HEIGHT,
            -3 <= x <= 3,
            m.wf(),
            m.map@.len() == (x + 3) * 6,
            forall|i: int|
                0 <= i < m.map@.len() ==> generated_entry(#[trigger] m.map@[i], heights@),
            forall|cx: int, cz: int|
                m.has_chunk(cx, cz) <==> (-3 <= cx < x && -3 <= cz < 3),
        decreases 3 - x,
    {
        let mut z: i64 = -3;
        while z < 3
            invariant
                heights@.len() == WORLD_SIZE * WORLD_SIZE,
                forall|i: int| 0 <= i < heights@.len() ==> 1 <= #[trigger] heights@[i]
                    <= CHUNK_HEIGHT,
                -3 <= x < 3,
                -3 <= z <= 3,
                m.wf(),
                m.map@.len() == (x + 3) * 6 + (z + 3),
                forall|i: int|
                    0 <= i < m.map@.len() ==> generated_entry(#[trigger] m.map@[i], heights@),
                forall|cx: int, cz: int|
                    m.has_chunk(cx, cz) <==> (-3 <= cx < x && -3 <= cz < 3) || (cx == x && -3 <= cz
                        < z),
            decreases 3 - z,
        {
            let xx = (x + 3) as usize;
            let zz = (z + 3) as usize;
            // Cut this chunk's 16 x 16 height patch out of the world field.
            let mut patch: Vec<u8> = Vec::new();
            let mut lx: usize = 0;
            while lx < CHUNK_SIZE
                invariant
                    heights@.len() == WORLD_SIZE * WORLD_SIZE,
                    forall|i: int| 0 <= i < heights@.len() ==> 1 <= #[trigger] heights@[i]
                        <= CHUNK_HEIGHT,
                    xx < CHUNK_LEN,
                    zz < CHUNK_LEN,
                    lx <= CHUNK_SIZE,
                    patch@.len() == lx * 16,
                    forall|i: int| 0 <= i < patch@.len() ==> 1 <= #[trigger] patch@[i]
                        <= CHUNK_HEIGHT,
                    forall|a: int, d: int|
                        0 <= a < lx && 0 <= d < CHUNK_SIZE ==> #[trigger] patch@[a * (
                        CHUNK_SIZE as int) + d] == heights@[((xx as int) * (CHUNK_SIZE as int) + a)
                            * (WORLD_SIZE as int) + (zz as int) * (CHUNK_SIZE as int) + d],
                decreases CHUNK_SIZE - lx,
            {
                let mut lz: usize = 0;
                while lz < CHUNK_SIZE
                    invariant
                        heights@.len() == WORLD_SIZE * WORLD_SIZE,
                        forall|i: int| 0 <= i < heights@.len() ==> 1 <= #[trigger] heights@[i]
                            <= CHUNK_HEIGHT,
                        xx < CHUNK_LEN,
                        zz < CHUNK_LEN,
                        lx < CHUNK_SIZE,
                        lz <= CHUNK_SIZE,
                        patch@.len() == lx * 16 + lz,
                        forall|i: int| 0 <= i < patch@.len() ==> 1 <= #[trigger] patch@[i]
                            <= CHUNK_HEIGHT,
                        forall|a: int, d: int|
                            0 <= a < lx && 0 <= d < CHUNK_SIZE ==> #[trigger] patch@[a * (
                            CHUNK_SIZE as int) + d] == heights@[((xx as int) * (CHUNK_SIZE as int)
                                + a) * (WORLD_SIZE as int) + (zz as int) * (CHUNK_SIZE as int) + d],
                        forall|d: int|
                            0 <= d < lz ==> #[trigger] patch@[(lx as int) * (CHUNK_SIZE as int) + d]
                                == heights@[((xx as int) * (CHUNK_SIZE as int) + lx as int) * (
                            WORLD_SIZE as int) + (zz as int) * (CHUNK_SIZE as int) + d],
                    decreases CHUNK_SIZE - lz,
                {
                    proof {
                        assert((WORLD_SIZE as int) == 96);
                        assert(((xx as int) * (CHUNK_SIZE as int) + lx as int) * (
                        WORLD_SIZE as int) + (zz as int) * (CHUNK_SIZE as int) + (lz as int)
                            < 9216);
                    }
                    let h = heights[(xx * CHUNK_SIZE + lx) * WORLD_SIZE + zz * CHUNK_SIZE + lz];
                    patch.push(h);
                    lz = lz + 1;
                }
                lx = lx + 1;
            }
            let mut chunk = terrain_chunk(&patch);
            let ghost c0 = chunk;
            if x == 0 && z == 0 {
                chunk.entities.push(make_spawn(EntityType::MainPlayer, 0, 16000, 0));
                chunk.entities.push(make_spawn(EntityType::Creeper, 5000, 16000, -10000));
                chunk.entities.push(make_spawn(EntityType::Player, 10000, 16000, -10000));
                chunk.entities.push(make_spawn(EntityType::Creeper, 10000, 16000, -8000));
                proof {
                    assert(chunk.entities@ =~= initial_entities());
                }
            } else {
                proof {
                    assert(chunk.entities@ =~= Seq::<EntityStatus>::empty());
                }
            }
            proof {
                assert(!m.has_chunk(x as int, z as int));
                assert(chunk.wf());
            }
            proof {
                assert forall|lx: int, ly: int, lz: int|
                    0 <= lx < CHUNK_SIZE && 0 <= ly < CHUNK_HEIGHT && 0 <= lz
                        < CHUNK_SIZE implies #[trigger] chunk.local_block(lx, ly, lz)
                    == terrain_block(
                    heights@[((x as int + 3) * (CHUNK_SIZE as int) + lx) * (WORLD_SIZE as int) + (
                    z as int + 3) * (CHUNK_SIZE as int) + lz],
                    ly,
                ) by {
                    assert(chunk.blocks@ == c0.blocks@);
                    assert(c0.local_block(lx, ly, lz) == terrain_block(
                        patch@[lx * (CHUNK_SIZE as int) + lz],
                        ly,
                    ));
                    assert(chunk.local_block(lx, ly, lz) == c0.local_block(lx, ly, lz));
                    assert(patch@[lx * (CHUNK_SIZE as int) + lz] == heights@[((xx as int) * (
                    CHUNK_SIZE as int) + lx) * (WORLD_SIZE as int) + (zz as int) * (
                    CHUNK_SIZE as int) + lz]);
                }
            }
            let ghost m0 = m;
            m.insert_chunk(x, z, chunk);
            proof {
                let n = m.map@.len() - 1;
                assert(m.map@[n].cx == x && m.map@[n].cz == z && m.map@[n].chunk == chunk);
                assert(generated_entry(m.map@[n], heights@));
                assert forall|cx: int, cz: int|
                    m.has_chunk(cx, cz) <==> ((-3 <= cx < x && -3 <= cz < 3) || (cx == x && -3 <= cz
                        < z + 1)) by {
                    if m.has_chunk(cx, cz) {
                        let i = m.chunk_index_of(cx, cz);
                        assert(0 <= i < m.map@.len() && m.map@[i].cx == cx && m.map@[i].cz == cz);
                        if i < n {
                            assert(m.map@[i] == m0.map@[i]);
                            assert(m0.has_chunk(cx, cz));
                        }
                    }
                    if (-3 <= cx < x && -3 <= cz < 3) || (cx == x && -3 <= cz < z) {
                        assert(m0.has_chunk(cx, cz));
                        let i = m0.chunk_index_of(cx, cz);
                        assert(0 <= i < m0.map@.len() && m0.map@[i].cx == cx && m0.map@[i].cz == cz);
                        assert(m.map@[i] == m0.map@[i]);
                        assert(m.has_chunk(cx, cz));
                    }
                    if cx == x && cz == z {
                        assert(m.has_chunk(cx, cz));
                    }
                }
            }
            z = z + 1;
        }
        x = x + 1;
    }
    m
}

/// Every entity record the chunks carry, in chunk order: what entering a
/// world spawns into the live registry.
pub open spec fn chunk_statuses(entries: Seq<ChunkEntry>) -> Seq<EntityStatus>
    decreases entries.len(),
{
    if entries.len() == 0 {
        Seq::empty()
    } else {
        chunk_statuses(entries.drop_last()) + entries.last().chunk.entities@
    }
}

/// A prefix of the chunk list never carries more entities than the whole.
proof fn lemma_chunk_statuses_take_le(entries: Seq<ChunkEntry>, i: int)
    requires
        0 <= i <= entries.len(),
    ensures
        chunk_statuses(entries.take(i)).len() <= chunk_statuses(entries).len(),
    decreases entries.len() - i,
{
    if i == entries.len() {
        assert(entries.take(i) =~= entries);
    } else {
        assert(entries.take(i + 1).drop_last() =~= entries.take(i));
        assert(entries.take(i + 1).last() == entries[i]);
        lemma_chunk_statuses_take_le(entries, i + 1);
    }
}

/// Enter a world: register every entity the loaded chunks carry in a fresh
/// registry, in chunk order, under the ids `0, 1, 2, ...` in that order.
pub fn spawn_world_entities(map: &GameMap, reg: &mut EntityRegistry)
    requires
        map.wf(),
        old(reg).wf(),
        old(reg).entities@.len() == 0,
        old(reg).next_id == 0,
        chunk_statuses(map.map@).len() < u64::MAX,
    ensures
        final(reg).wf(),
        final(reg).entities@.len() == chunk_statuses(map.map@).len(),
        forall|k: int|
            0 <= k < final(reg).entities@.len() ==> (#[trigger] final(reg).entities@[k]).id
                == k as u64 && final(reg).entities@[k].status == chunk_statuses(map.map@)[k],
{
    let n = map.map.len();
    let mut i: usize = 0;
    proof {
        assert(map.map@.take(0) =~= Seq::<ChunkEntry>::empty());
    }
    while i < n
        invariant
            map.wf(),
            n == map.map@.len(),
            i <= n,
            chunk_statuses(map.map@).len() < u64::MAX,
            reg.wf(),
            reg.next_id == reg.entities@.len(),
            reg.entities@.len() == chunk_statuses(map.map@.take(i as int)).len(),
            forall|k: int|
                0 <= k < reg.entities@.len() ==> (#[trigger] reg.entities@[k]).id == k as u64
                    && reg.entities@[k].status == chunk_statuses(map.map@.take(i as int))[k],
        decreases n - i,
    {
        let ghost pre = chunk_statuses(map.map@.take(i as int));
        let entry = &map.map[i];
        proof {
            assert(entry.chunk.wf());
            assert(map.map@.take(i as int + 1).drop_last() =~= map.map@.take(i as int));
            assert(map.map@.take(i as int + 1).last() == map.map@[i as int]);
            lemma_chunk_statuses_take_le(map.map@, i as int + 1);
        }
        let ne = entry.chunk.entities.len();
        let mut j: usize = 0;
        while j < ne
            invariant
                map.wf(),
                i < n,
                n == map.map@.len(),
                ne == map.map@[i as int].chunk.entities@.len(),
                j <= ne,
                pre == chunk_statuses(map.map@.take(i as int)),
                pre.len() + map.map@[i as int].chunk.entities@.len() == chunk_statuses(
                    map.map@.take(i as int + 1),
                ).len(),
                chunk_statuses(map.map@.take(i as int + 1)).len() <= chunk_statuses(
                    map.map@,
                ).len() < u64::MAX,
                reg.wf(),
                reg.next_id == reg.entities@.len(),
                reg.entities@.len() == pre.len() + j,
                forall|k: int|
                    0 <= k < reg.entities@.len() ==> (#[trigger] reg.entities@[k]).id == k as u64
                        && reg.entities@[k].status == (pre + map.map@[i as int].chunk.entities@.take(
                        j as int,
                    ))[k],
            decreases ne - j,
        {
            let s = map.map[i].chunk.entities[j];
            proof {
                assert(map.map@[i as int].chunk.wf());
                assert(map.map@[i as int].chunk.entities@[j as int].wf());
            }
            reg.spawn(s);
            proof {
                assert(pre + map.map@[i as int].chunk.entities@.take(j as int + 1) =~= (pre
                    + map.map@[i as int].chunk.entities@.take(j as int)).push(s));
            }
            j = j + 1;
        }
        proof {
            assert(map.map@[i as int].chunk.entities@.take(ne as int) =~= map.map@[i as int].chunk.entities@);
            assert(pre + map.map@[i as int].chunk.entities@ =~= chunk_statuses(
                map.map@.take(i as int + 1),
            ));
        }
        i = i + 1;
    }
    proof {
        assert(map.map@.take(n as int) =~= map.map@);
    }
}

} // verus!
