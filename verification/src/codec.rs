//! World persistence: a flat word encoding of the whole game map, with a
//! verified decoder and a proved round trip. A save is a sequence of `i64`
//! words: the chunk count, then per chunk its coordinates, its block ids,
//! its entity count and its entity records. The byte-level file I/O lives
//! outside the library; it stores and returns these words unchanged.
//!
//! Decoding validates everything the map's well-formedness needs (entity
//! kinds, health and coordinate ranges, block id ranges, key uniqueness,
//! and that the input is consumed exactly); a malformed save decodes to
//! nothing.

use vstd::prelude::*;

verus! {

use crate::entities::EntityStatus;
use crate::entities::EntityType;
use crate::fixed::in_range;
use crate::fixed::Vec3Fx;
use crate::fixed::POS_LIMIT;
use crate::fixed::VEL_LIMIT;
use crate::gamemap::Chunk;
use crate::gamemap::ChunkEntry;
use crate::gamemap::GameMap;
use crate::gamemap::CHUNK_VOLUME;

/// The mathematical content of one chunk entry: its key, its block ids and
/// its entity records.
pub struct ChunkData {
    pub cx: i64,
    pub cz: i64,
    pub blocks: Seq<i32>,
    pub entities: Seq<EntityStatus>,
}

/// The content of a stored chunk entry.
pub open spec fn entry_data(e: ChunkEntry) -> ChunkData {
    ChunkData { cx: e.cx, cz: e.cz, blocks: e.chunk.blocks@, entities: e.chunk.entities@ }
}

/// The content of a whole map, in storage order.
pub open spec fn map_data(m: GameMap) -> Seq<ChunkData> {
    Seq::new(m.map@.len(), |i: int| entry_data(m.map@[i]))
}

/// The word standing for an entity kind.
pub open spec fn type_code(t: EntityType) -> i64 {
    match t {
        EntityType::MainPlayer => 0,
        EntityType::Player => 1,
        EntityType::Creeper => 2,
        EntityType::Torch => 3,
        EntityType::HuTao => 4,
        EntityType::Chicken => 5,
    }
}

/// The entity kind a word stands for, if any.
pub open spec fn code_type(c: i64) -> Option<EntityType> {
    if c == 0 {
        Some(EntityType::MainPlayer)
    } else if c == 1 {
        Some(EntityType::Player)
    } else if c == 2 {
        Some(EntityType::Creeper)
    } else if c == 3 {
        Some(EntityType::Torch)
    } else if c == 4 {
        Some(EntityType::HuTao)
    } else if c == 5 {
        Some(EntityType::Chicken)
    } else {
        None
    }
}

/// Words of one entity record.
pub const STATUS_WORDS: usize = 13;

/// One entity record as words: kind, health, position, rotation, scaling,
/// velocity, cooldown.
pub open spec fn enc_status(s: EntityStatus) -> Seq<i64> {
    seq![
        type_code(s.entity_type),
        s.health as i64,
        s.position.x,
        s.position.y,
        s.position.z,
        s.rotation,
        s.scaling.x,
        s.scaling.y,
        s.scaling.z,
        s.velocity.x,
        s.velocity.y,
        s.velocity.z,
        s.attack_cd,
    ]
}

/// Parse one entity record; rejects unknown kinds and values outside the
/// ranges a well-formed entity may hold.
pub open spec fn dec_status(w: Seq<i64>) -> Option<(EntityStatus, Seq<i64>)> {
    if w.len() < STATUS_WORDS as int {
        None
    } else {
        match code_type(w[0]) {
            None => None,
            Some(t) => {
                if i32::MIN as int <= w[1] as int <= i32::MAX as int && in_range(
                    w[2] as int,
                    POS_LIMIT as int,
                ) && in_range(w[3] as int, POS_LIMIT as int) && in_range(
                    w[4] as int,
                    POS_LIMIT as int,
                ) && in_range(w[9] as int, VEL_LIMIT as int) && in_range(
                    w[10] as int,
                    VEL_LIMIT as int,
                ) && in_range(w[11] as int, VEL_LIMIT as int) {
                    Some(
                        (
                            EntityStatus {
                                entity_type: t,
                                health: w[1] as i32,
                                position: Vec3Fx { x: w[2], y: w[3], z: w[4] },
                                rotation: w[5],
                                scaling: Vec3Fx { x: w[6], y: w[7], z: w[8] },
                                velocity: Vec3Fx { x: w[9], y: w[10], z: w[11] },
                                attack_cd: w[12],
                            },
                            w.skip(STATUS_WORDS as int),
                        ),
                    )
                } else {
                    None
                }
            },
        }
    }
}

/// A list of entity records as words, in order.
pub open spec fn enc_statuses(es: Seq<EntityStatus>) -> Seq<i64>
    decreases es.len(),
{
    if es.len() == 0 {
        Seq::empty()
    } else {
        enc_status(es[0]) + enc_statuses(es.drop_first())
    }
}

/// Parse `n` entity records.
pub open spec fn dec_statuses(w: Seq<i64>, n: int) -> Option<(Seq<EntityStatus>, Seq<i64>)>
    decreases n,
{
    if n <= 0 {
        if n == 0 {
            Some((Seq::empty(), w))
        } else {
            None
        }
    } else {
        match dec_status(w) {
            None => None,
            Some((s, rest)) => match dec_statuses(rest, n - 1) {
                None => None,
                Some((ss, rest2)) => Some((seq![s] + ss, rest2)),
            },
        }
    }
}

/// Parse one chunk's block array; every word must fit a block id.
pub open spec fn dec_blocks(w: Seq<i64>) -> Option<(Seq<i32>, Seq<i64>)> {
    if w.len() < CHUNK_VOLUME as int {
        None
    } else if forall|i: int|
        0 <= i < CHUNK_VOLUME as int ==> i32::MIN as int <= (#[trigger] w[i]) as int
            <= i32::MAX as int {
        Some((Seq::new(CHUNK_VOLUME as nat, |i: int| w[i] as i32), w.skip(CHUNK_VOLUME as int)))
    } else {
        None
    }
}

/// One chunk entry as words: key, blocks, entity count, entities.
pub open spec fn enc_chunk_data(c: ChunkData) -> Seq<i64> {
    seq![c.cx, c.cz] + c.blocks.map_values(|b: i32| b as i64) + seq![c.entities.len() as i64]
        + enc_statuses(c.entities)
}

/// Parse one chunk entry.
pub open spec fn dec_chunk_data(w: Seq<i64>) -> Option<(ChunkData, Seq<i64>)> {
    if w.len() < 2 {
        None
    } else {
        match dec_blocks(w.skip(2)) {
            None => None,
            Some((bs, w2)) => {
                if w2.len() < 1 {
                    None
                } else if w2[0] < 0 {
                    None
                } else {
                    match dec_statuses(w2.skip(1), w2[0] as int) {
                        None => None,
                        Some((es, w3)) => Some(
                            (ChunkData { cx: w[0], cz: w[1], blocks: bs, entities: es }, w3),
                        ),
                    }
                }
            },
        }
    }
}

/// A list of chunk entries as words, in order.
pub open spec fn enc_entries(d: Seq<ChunkData>) -> Seq<i64>
    decreases d.len(),
{
    if d.len() == 0 {
        Seq::empty()
    } else {
        enc_chunk_data(d[0]) + enc_entries(d.drop_first())
    }
}

/// Parse `n` chunk entries.
pub open spec fn dec_entries(w: Seq<i64>, n: int) -> Option<(Seq<ChunkData>, Seq<i64>)>
    decreases n,
{
    if n <= 0 {
        if n == 0 {
            Some((Seq::empty(), w))
        } else {
            None
        }
    } else {
        match dec_chunk_data(w) {
            None => None,
            Some((c, rest)) => match dec_entries(rest, n - 1) {
                None => None,
                Some((cs, rest2)) => Some((seq![c] + cs, rest2)),
            },
        }
    }
}

/// No two stored chunks share a key.
pub open spec fn data_keys_unique(d: Seq<ChunkData>) -> bool {
    forall|i: int, j: int|
        0 <= i < j < d.len() ==> !(d[i].cx == d[j].cx && d[i].cz == d[j].cz)
}

/// A whole save as words: the chunk count, then the entries.
pub open spec fn enc_map_data(d: Seq<ChunkData>) -> Seq<i64> {
    seq![d.len() as i64] + enc_entries(d)
}

/// Parse a whole save: the entries must consume the input exactly and
/// carry pairwise distinct keys.
pub open spec fn dec_map_data(w: Seq<i64>) -> Option<Seq<ChunkData>> {
    if w.len() < 1 {
        None
    } else if w[0] < 0 {
        None
    } else {
        match dec_entries(w.skip(1), w[0] as int) {
            None => None,
            Some((d, rest)) => {
                if rest.len() == 0 && data_keys_unique(d) {
                    Some(d)
                } else {
                    None
                }
            },
        }
    }
}

/// What the encoder can represent faithfully: chunk and entity counts that
/// fit one word, full block arrays, well-formed entities, distinct keys.
pub open spec fn data_encodable(d: Seq<ChunkData>) -> bool {
    &&& d.len() <= i64::MAX as int
    &&& forall|i: int|
        0 <= i < d.len() ==> (#[trigger] d[i]).blocks.len() == CHUNK_VOLUME as int
    &&& forall|i: int|
        0 <= i < d.len() ==> (#[trigger] d[i]).entities.len() <= i64::MAX as int
    &&& forall|i: int, j: int|
        0 <= i < d.len() && 0 <= j < d[i].entities.len() ==> (#[trigger] d[i].entities[j]).wf()
    &&& data_keys_unique(d)
}

/// Decoding one encoded entity record gives it back, with the rest intact.
pub proof fn lemma_status_round_trip(s: EntityStatus, rest: Seq<i64>)
    requires
        s.wf(),
    ensures
        dec_status(enc_status(s) + rest) == Some((s, rest)),
{
    let w = enc_status(s) + rest;
    assert(code_type(type_code(s.entity_type)) == Some(s.entity_type));
    assert(w.skip(STATUS_WORDS as int) =~= rest);
    assert(dec_status(w) == Some((s, rest)));
}

/// Decoding `n` encoded entity records gives them back.
pub proof fn lemma_statuses_round_trip(es: Seq<EntityStatus>, rest: Seq<i64>)
    requires
        forall|j: int| 0 <= j < es.len() ==> (#[trigger] es[j]).wf(),
    ensures
        dec_statuses(enc_statuses(es) + rest, es.len() as int) == Some((es, rest)),
    decreases es.len(),
{
    if es.len() == 0 {
        assert(enc_statuses(es) + rest =~= rest);
        assert(dec_statuses(rest, 0) == Some((Seq::<EntityStatus>::empty(), rest)));
        assert(es =~= Seq::<EntityStatus>::empty());
    } else {
        let tail = es.drop_first();
        assert(enc_statuses(es) == enc_status(es[0]) + enc_statuses(tail));
        assert((enc_status(es[0]) + enc_statuses(tail)) + rest =~= enc_status(es[0]) + (
        enc_statuses(tail) + rest));
        lemma_status_round_trip(es[0], enc_statuses(tail) + rest);
        assert(forall|j: int| 0 <= j < tail.len() ==> (#[trigger] tail[j]).wf());
        lemma_statuses_round_trip(tail, rest);
        assert(seq![es[0]] + tail =~= es);
    }
}

/// Decoding an encoded block array gives it back.
pub proof fn lemma_blocks_round_trip(bs: Seq<i32>, rest: Seq<i64>)
    requires
        bs.len() == CHUNK_VOLUME as int,
    ensures
        dec_blocks(bs.map_values(|b: i32| b as i64) + rest) == Some((bs, rest)),
{
    let enc = bs.map_values(|b: i32| b as i64);
    let w = enc + rest;
    assert(forall|i: int|
        0 <= i < CHUNK_VOLUME as int ==> i32::MIN as int <= (#[trigger] w[i]) as int
            <= i32::MAX as int);
    assert(Seq::new(CHUNK_VOLUME as nat, |i: int| w[i] as i32) =~= bs);
    assert(w.skip(CHUNK_VOLUME as int) =~= rest);
}

/// Decoding one encoded chunk entry gives it back.
pub proof fn lemma_chunk_round_trip(c: ChunkData, rest: Seq<i64>)
    requires
        c.blocks.len() == CHUNK_VOLUME as int,
        c.entities.len() <= i64::MAX as int,
        forall|j: int| 0 <= j < c.entities.len() ==> (#[trigger] c.entities[j]).wf(),
    ensures
        dec_chunk_data(enc_chunk_data(c) + rest) == Some((c, rest)),
{
    let blocks_w = c.blocks.map_values(|b: i32| b as i64);
    let count = seq![c.entities.len() as i64];
    let sts = enc_statuses(c.entities);
    let w = enc_chunk_data(c) + rest;
    assert(w.len() >= 2);
    assert(w[0] == c.cx && w[1] == c.cz);
    assert(w.skip(2) =~= blocks_w + (count + (sts + rest)));
    lemma_blocks_round_trip(c.blocks, count + (sts + rest));
    let w2 = count + (sts + rest);
    assert(w2[0] == c.entities.len() as i64);
    assert(w2[0] >= 0);
    assert(w2.skip(1) =~= sts + rest);
    lemma_statuses_round_trip(c.entities, rest);
    assert(w2[0] as int == c.entities.len() as int);
    assert(dec_statuses(w2.skip(1), w2[0] as int) == Some((c.entities, rest)));
    assert(dec_chunk_data(w) == Some(
        (ChunkData { cx: c.cx, cz: c.cz, blocks: c.blocks, entities: c.entities }, rest),
    ));
    assert((ChunkData { cx: c.cx, cz: c.cz, blocks: c.blocks, entities: c.entities }) == c);
}

/// Decoding `n` encoded chunk entries gives them back.
pub proof fn lemma_entries_round_trip(d: Seq<ChunkData>, rest: Seq<i64>)
    requires
        forall|i: int| 0 <= i < d.len() ==> (#[trigger] d[i]).blocks.len() == CHUNK_VOLUME as int,
        forall|i: int| 0 <= i < d.len() ==> (#[trigger] d[i]).entities.len() <= i64::MAX as int,
        forall|i: int, j: int|
            0 <= i < d.len() && 0 <= j < d[i].entities.len() ==> (#[trigger] d[i].entities[j]).wf(),
    ensures
        dec_entries(enc_entries(d) + rest, d.len() as int) == Some((d, rest)),
    decreases d.len(),
{
    if d.len() == 0 {
        assert(enc_entries(d) + rest =~= rest);
        assert(d =~= Seq::<ChunkData>::empty());
    } else {
        let tail = d.drop_first();
        assert(enc_entries(d) == enc_chunk_data(d[0]) + enc_entries(tail));
        assert((enc_chunk_data(d[0]) + enc_entries(tail)) + rest =~= enc_chunk_data(d[0]) + (
        enc_entries(tail) + rest));
        assert(forall|j: int| 0 <= j < d[0].entities.len() ==> (#[trigger] d[0].entities[j]).wf());
        lemma_chunk_round_trip(d[0], enc_entries(tail) + rest);
        assert(forall|i: int| 0 <= i < tail.len() ==> (#[trigger] tail[i]).blocks.len()
            == CHUNK_VOLUME as int);
        assert(forall|i: int| 0 <= i < tail.len() ==> (#[trigger] tail[i]).entities.len()
            <= i64::MAX as int);
        assert(forall|i: int, j: int|
            0 <= i < tail.len() && 0 <= j < tail[i].entities.len() ==> (#[trigger] tail[i].entities[j]).wf());
        lemma_entries_round_trip(tail, rest);
        assert(seq![d[0]] + tail =~= d);
    }
}

/// The save/load round trip: decoding an encoded map gives back exactly
/// the map's content — every chunk key, every block id, every entity
/// record.
pub proof fn lemma_save_load_round_trip(d: Seq<ChunkData>)
    requires
        data_encodable(d),
    ensures
        dec_map_data(enc_map_data(d)) == Some(d),
{
    let w = enc_map_data(d);
    assert(w[0] == d.len() as i64);
    assert(w[0] >= 0);
    assert(w.skip(1) =~= enc_entries(d) + Seq::<i64>::empty());
    lemma_entries_round_trip(d, Seq::<i64>::empty());
    assert(dec_entries(w.skip(1), w[0] as int) == Some((d, Seq::<i64>::empty())));
}

/// The round trip over a whole well-formed map: saving it and loading the
/// save back yields exactly its content — every chunk key, block id and
/// entity record. (The count bounds are forced by the one-word counters.)
pub proof fn lemma_gamemap_round_trip(m: GameMap)
    requires
        m.wf(),
        m.map@.len() <= i64::MAX as int,
        forall|i: int|
            0 <= i < m.map@.len() ==> (#[trigger] m.map@[i]).chunk.entities@.len()
                <= i64::MAX as int,
    ensures
        dec_map_data(enc_map_data(map_data(m))) == Some(map_data(m)),
{
    lemma_wf_map_encodable(m);
    lemma_save_load_round_trip(map_data(m));
}

/// `enc_statuses` distributes over appending one record.
pub proof fn lemma_enc_statuses_push(es: Seq<EntityStatus>, s: EntityStatus)
    ensures
        enc_statuses(es.push(s)) == enc_statuses(es) + enc_status(s),
    decreases es.len(),
{
    reveal_with_fuel(enc_statuses, 3);
    if es.len() == 0 {
        assert(es.push(s)[0] == s);
        assert(es.push(s).drop_first() =~= Seq::<EntityStatus>::empty());
        assert(enc_status(s) + Seq::<i64>::empty() =~= enc_status(s));
        assert(Seq::<i64>::empty() + enc_status(s) =~= enc_status(s));
    } else {
        assert(es.push(s)[0] == es[0]);
        assert(es.push(s).drop_first() =~= es.drop_first().push(s));
        lemma_enc_statuses_push(es.drop_first(), s);
        assert(enc_statuses(es.push(s)) == enc_status(es[0]) + (enc_statuses(es.drop_first())
            + enc_status(s)));
        assert(enc_status(es[0]) + (enc_statuses(es.drop_first()) + enc_status(s)) =~= (enc_status(
            es[0],
        ) + enc_statuses(es.drop_first())) + enc_status(s));
    }
}

/// `enc_entries` distributes over appending one entry.
pub proof fn lemma_enc_entries_push(d: Seq<ChunkData>, c: ChunkData)
    ensures
        enc_entries(d.push(c)) == enc_entries(d) + enc_chunk_data(c),
    decreases d.len(),
{
    reveal_with_fuel(enc_entries, 3);
    if d.len() == 0 {
        assert(d.push(c)[0] == c);
        assert(d.push(c).drop_first() =~= Seq::<ChunkData>::empty());
        assert(enc_chunk_data(c) + Seq::<i64>::empty() =~= enc_chunk_data(c));
        assert(Seq::<i64>::empty() + enc_chunk_data(c) =~= enc_chunk_data(c));
    } else {
        assert(d.push(c)[0] == d[0]);
        assert(d.push(c).drop_first() =~= d.drop_first().push(c));
        lemma_enc_entries_push(d.drop_first(), c);
        assert(enc_entries(d.push(c)) == enc_chunk_data(d[0]) + (enc_entries(d.drop_first())
            + enc_chunk_data(c)));
        assert(enc_chunk_data(d[0]) + (enc_entries(d.drop_first()) + enc_chunk_data(c)) =~= (
        enc_chunk_data(d[0]) + enc_entries(d.drop_first())) + enc_chunk_data(c));
    }
}

/// A well-formed map's content is encodable whenever its counts fit one
/// word each.
pub proof fn lemma_wf_map_encodable(m: GameMap)
    requires
        m.wf(),
        m.map@.len() <= i64::MAX as int,
        forall|i: int|
            0 <= i < m.map@.len() ==> (#[trigger] m.map@[i]).chunk.entities@.len()
                <= i64::MAX as int,
    ensures
        data_encodable(map_data(m)),
{
    let d = map_data(m);
    assert forall|i: int| 0 <= i < d.len() implies (#[trigger] d[i]).blocks.len()
        == CHUNK_VOLUME as int by {
        assert(m.map@[i].chunk.wf());
    }
    assert forall|i: int, j: int|
        0 <= i < d.len() && 0 <= j < d[i].entities.len() implies (
    #[trigger] d[i].entities[j]).wf() by {
        assert(m.map@[i].chunk.wf());
    }
}

/// Exec mirror of `type_code`.
fn type_code_of(t: EntityType) -> (r: i64)
    ensures
        r == type_code(t),
{
    match t {
        EntityType::MainPlayer => 0,
        EntityType::Player => 1,
        EntityType::Creeper => 2,
        EntityType::Torch => 3,
        EntityType::HuTao => 4,
        EntityType::Chicken => 5,
    }
}

/// Exec mirror of `code_type`.
fn type_of_code(c: i64) -> (r: Option<EntityType>)
    ensures
        r == code_type(c),
{
    if c == 0 {
        Some(EntityType::MainPlayer)
    } else if c == 1 {
        Some(EntityType::Player)
    } else if c == 2 {
        Some(EntityType::Creeper)
    } else if c == 3 {
        Some(EntityType::Torch)
    } else if c == 4 {
        Some(EntityType::HuTao)
    } else if c == 5 {
        Some(EntityType::Chicken)
    } else {
        None
    }
}

/// Append one entity record to the output words.
fn write_status(out: &mut Vec<i64>, s: &EntityStatus)
    ensures
        final(out)@ == old(out)@ + enc_status(*s),
{
    out.push(type_code_of(s.entity_type));
    out.push(s.health as i64);
    out.push(s.position.x);
    out.push(s.position.y);
    out.push(s.position.z);
    out.push(s.rotation);
    out.push(s.scaling.x);
    out.push(s.scaling.y);
    out.push(s.scaling.z);
    out.push(s.velocity.x);
    out.push(s.velocity.y);
    out.push(s.velocity.z);
    out.push(s.attack_cd);
    proof {
        assert(out@ =~= old(out)@ + enc_status(*s));
    }
}

/// Encode the whole map as words: the chunk count, then per chunk its
/// coordinates, block ids, entity count and entity records.
pub fn encode_gamemap(m: &GameMap) -> (r: Vec<i64>)
    requires
        m.wf(),
        m.map@.len() <= i64::MAX as int,
        forall|i: int|
            0 <= i < m.map@.len() ==> (#[trigger] m.map@[i]).chunk.entities@.len()
                <= i64::MAX as int,
    ensures
        r@ == enc_map_data(map_data(*m)),
{
    let ghost d = map_data(*m);
    let mut out: Vec<i64> = Vec::new();
    let n = m.map.len();
    out.push(n as i64);
    proof {
        assert(out@ =~= seq![d.len() as i64] + enc_entries(d.take(0)));
        assert(enc_entries(d.take(0)) =~= Seq::<i64>::empty());
    }
    let mut i: usize = 0;
    while i < n
        invariant
            m.wf(),
            m.map@.len() <= i64::MAX as int,
            forall|k: int|
                0 <= k < m.map@.len() ==> (#[trigger] m.map@[k]).chunk.entities@.len()
                    <= i64::MAX as int,
            n == m.map@.len(),
            i <= n,
            d == map_data(*m),
            out@ == seq![d.len() as i64] + enc_entries(d.take(i as int)),
        decreases n - i,
    {
        let ghost base = out@;
        let entry = &m.map[i];
        proof {
            assert(entry.chunk.wf());
        }
        out.push(entry.cx);
        out.push(entry.cz);
        let nb = entry.chunk.blocks.len();
        let mut j: usize = 0;
        while j < nb
            invariant
                nb == entry.chunk.blocks@.len(),
                j <= nb,
                out@ == base + seq![entry.cx, entry.cz] + entry.chunk.blocks@.take(
                    j as int,
                ).map_values(|b: i32| b as i64),
            decreases nb - j,
        {
            out.push(entry.chunk.blocks[j] as i64);
            proof {
                assert(out@ =~= base + seq![entry.cx, entry.cz] + entry.chunk.blocks@.take(
                    j as int + 1,
                ).map_values(|b: i32| b as i64));
            }
            j = j + 1;
        }
        proof {
            assert(entry.chunk.blocks@.take(nb as int) =~= entry.chunk.blocks@);
        }
        let ne = entry.chunk.entities.len();
        out.push(ne as i64);
        let ghost base2 = out@;
        let mut k: usize = 0;
        while k < ne
            invariant
                ne == entry.chunk.entities@.len(),
                k <= ne,
                out@ == base2 + enc_statuses(entry.chunk.entities@.take(k as int)),
            decreases ne - k,
        {
            write_status(&mut out, &entry.chunk.entities[k]);
            proof {
                assert(entry.chunk.entities@.take(k as int + 1) =~= entry.chunk.entities@.take(
                    k as int,
                ).push(entry.chunk.entities@[k as int]));
                lemma_enc_statuses_push(
                    entry.chunk.entities@.take(k as int),
                    entry.chunk.entities@[k as int],
                );
            }
            k = k + 1;
        }
        proof {
            assert(entry.chunk.entities@.take(ne as int) =~= entry.chunk.entities@);
            assert(d[i as int] == entry_data(m.map@[i as int]));
            assert(out@ =~= base + enc_chunk_data(d[i as int]));
            assert(d.take(i as int + 1) =~= d.take(i as int).push(d[i as int]));
            lemma_enc_entries_push(d.take(i as int), d[i as int]);
            assert(out@ =~= seq![d.len() as i64] + enc_entries(d.take(i as int + 1)));
        }
        i = i + 1;
    }
    proof {
        assert(d.take(n as int) =~= d);
    }
    out
}

/// Parse one entity record at `pos`.
fn read_status(words: &Vec<i64>, pos: usize) -> (r: Option<(EntityStatus, usize)>)
    requires
        pos <= words@.len(),
    ensures
        match r {
            Some(sp) => {
                &&& dec_status(words@.skip(pos as int)) == Some(
                    (sp.0, words@.skip(sp.1 as int)),
                )
                &&& pos < sp.1 <= words@.len()
                &&& sp.0.wf()
            },
            None => dec_status(words@.skip(pos as int)) is None,
        },
{
    if words.len() - pos < STATUS_WORDS {
        return None;
    }
    let t = match type_of_code(words[pos]) {
        Some(t) => t,
        None => {
            return None;
        },
    };
    let health_w = words[pos + 1];
    if health_w < i32::MIN as i64 || health_w > i32::MAX as i64 {
        return None;
    }
    let px = words[pos + 2];
    let py = words[pos + 3];
    let pz = words[pos + 4];
    if px < -POS_LIMIT || px > POS_LIMIT || py < -POS_LIMIT || py > POS_LIMIT || pz < -POS_LIMIT
        || pz > POS_LIMIT {
        return None;
    }
    let vx = words[pos + 9];
    let vy = words[pos + 10];
    let vz = words[pos + 11];
    if vx < -VEL_LIMIT || vx > VEL_LIMIT || vy < -VEL_LIMIT || vy > VEL_LIMIT || vz < -VEL_LIMIT
        || vz > VEL_LIMIT {
        return None;
    }
    let s = EntityStatus {
        entity_type: t,
        health: health_w as i32,
        position: Vec3Fx { x: px, y: py, z: pz },
        rotation: words[pos + 5],
        scaling: Vec3Fx { x: words[pos + 6], y: words[pos + 7], z: words[pos + 8] },
        velocity: Vec3Fx { x: vx, y: vy, z: vz },
        attack_cd: words[pos + 12],
    };
    let p2 = pos + STATUS_WORDS;
    proof {
        assert(words@.skip(pos as int).skip(STATUS_WORDS as int) =~= words@.skip(p2 as int));
    }
    Some((s, p2))
}

/// Parse `n` entity records at `pos`.
fn read_statuses(words: &Vec<i64>, pos: usize, n: i64) -> (r: Option<(Vec<EntityStatus>, usize)>)
    requires
        pos <= words@.len(),
        0 <= n,
    ensures
        match r {
            Some(vp) => {
                &&& dec_statuses(words@.skip(pos as int), n as int) == Some(
                    (vp.0@, words@.skip(vp.1 as int)),
                )
                &&& forall|j: int| 0 <= j < vp.0@.len() ==> (#[trigger] vp.0@[j]).wf()
                &&& pos <= vp.1 <= words@.len()
            },
            None => dec_statuses(words@.skip(pos as int), n as int) is None,
        },
    decreases n,
{
    if n == 0 {
        let v: Vec<EntityStatus> = Vec::new();
        proof {
            assert(v@ =~= Seq::<EntityStatus>::empty());
        }
        return Some((v, pos));
    }
    match read_status(words, pos) {
        None => None,
        Some((s, p)) => {
            match read_statuses(words, p, n - 1) {
                None => None,
                Some((mut v, p2)) => {
                    v.insert(0, s);
                    proof {
                        assert(v@ =~= seq![s] + v@.subrange(1, v@.len() as int));
                    }
                    Some((v, p2))
                },
            }
        },
    }
}

/// Parse one chunk's block array at `pos`.
fn read_blocks(words: &Vec<i64>, pos: usize) -> (r: Option<(Vec<i32>, usize)>)
    requires
        pos <= words@.len(),
    ensures
        match r {
            Some(vp) => {
                &&& dec_blocks(words@.skip(pos as int)) == Some(
                    (vp.0@, words@.skip(vp.1 as int)),
                )
                &&& vp.0@.len() == CHUNK_VOLUME
                &&& pos <= vp.1 <= words@.len()
            },
            None => dec_blocks(words@.skip(pos as int)) is None,
        },
{
    if words.len() - pos < CHUNK_VOLUME {
        return None;
    }
    let mut v: Vec<i32> = Vec::new();
    let mut j: usize = 0;
    while j < CHUNK_VOLUME
        invariant
            pos + CHUNK_VOLUME <= words@.len(),
            words@.len() <= usize::MAX as int,
            j <= CHUNK_VOLUME,
            v@.len() == j,
            forall|k: int|
                0 <= k < j ==> i32::MIN as int <= (#[trigger] words@[pos + k]) as int
                    <= i32::MAX as int,
            forall|k: int| 0 <= k < j ==> #[trigger] v@[k] == words@[pos + k] as i32,
        decreases CHUNK_VOLUME - j,
    {
        let w = words[pos + j];
        if w < i32::MIN as i64 || w > i32::MAX as i64 {
            proof {
                assert(words@.skip(pos as int)[j as int] == words@[pos + j as int]);
                assert(!(i32::MIN as int <= (words@.skip(pos as int)[j as int]) as int
                    <= i32::MAX as int));
            }
            return None;
        }
        v.push(w as i32);
        j = j + 1;
    }
    let p2 = pos + CHUNK_VOLUME;
    proof {
        let w = words@.skip(pos as int);
        assert(forall|i: int| 0 <= i < CHUNK_VOLUME as int ==> (#[trigger] w[i]) == words@[pos + i]);
        assert(v@ =~= Seq::new(CHUNK_VOLUME as nat, |i: int| w[i] as i32));
        assert(w.skip(CHUNK_VOLUME as int) =~= words@.skip(p2 as int));
    }
    Some((v, p2))
}

/// Parse one chunk entry at `pos`.
fn read_entry(words: &Vec<i64>, pos: usize) -> (r: Option<(ChunkEntry, usize)>)
    requires
        pos <= words@.len(),
    ensures
        match r {
            Some(ep) => {
                &&& dec_chunk_data(words@.skip(pos as int)) == Some(
                    (entry_data(ep.0), words@.skip(ep.1 as int)),
                )
                &&& ep.0.chunk.wf()
                &&& pos <= ep.1 <= words@.len()
            },
            None => dec_chunk_data(words@.skip(pos as int)) is None,
        },
{
    if words.len() - pos < 2 {
        return None;
    }
    let cx = words[pos];
    let cz = words[pos + 1];
    proof {
        assert(words@.skip(pos as int).skip(2) =~= words@.skip(pos as int + 2));
    }
    match read_blocks(words, pos + 2) {
        None => None,
        Some((blocks, p)) => {
            if p >= words.len() {
                proof {
                    assert(words@.skip(p as int).len() < 1);
                }
                return None;
            }
            let ne = words[p];
            if ne < 0 {
                return None;
            }
            proof {
                assert(words@.skip(p as int).skip(1) =~= words@.skip(p as int + 1));
                assert(words@.skip(p as int)[0] == words@[p as int]);
            }
            match read_statuses(words, p + 1, ne) {
                None => None,
                Some((entities, p2)) => {
                    let e = ChunkEntry { cx, cz, chunk: Chunk { blocks, entities } };
                    proof {
                        assert(words@.skip(pos as int)[0] == cx);
                        assert(words@.skip(pos as int)[1] == cz);
                        assert(forall|j: int|
                            0 <= j < e.chunk.entities@.len() ==> (
                            #[trigger] e.chunk.entities@[j]).wf());
                    }
                    Some((e, p2))
                },
            }
        },
    }
}

/// Parse `n` chunk entries at `pos`.
fn read_entries(words: &Vec<i64>, pos: usize, n: i64) -> (r: Option<(Vec<ChunkEntry>, usize)>)
    requires
        pos <= words@.len(),
        0 <= n,
    ensures
        match r {
            Some(vp) => {
                &&& dec_entries(words@.skip(pos as int), n as int) == Some(
                    (vp.0@.map_values(|e: ChunkEntry| entry_data(e)), words@.skip(vp.1 as int)),
                )
                &&& forall|i: int| 0 <= i < vp.0@.len() ==> (#[trigger] vp.0@[i]).chunk.wf()
                &&& pos <= vp.1 <= words@.len()
            },
            None => dec_entries(words@.skip(pos as int), n as int) is None,
        },
    decreases n,
{
    if n == 0 {
        let v: Vec<ChunkEntry> = Vec::new();
        proof {
            assert(v@.map_values(|e: ChunkEntry| entry_data(e)) =~= Seq::<ChunkData>::empty());
        }
        return Some((v, pos));
    }
    match read_entry(words, pos) {
        None => None,
        Some((e, p)) => {
            match read_entries(words, p, n - 1) {
                None => None,
                Some((mut v, p2)) => {
                    let ghost tail = v@;
                    v.insert(0, e);
                    proof {
                        assert(v@ =~= seq![e] + tail);
                        assert(v@.map_values(|x: ChunkEntry| entry_data(x)) =~= seq![entry_data(e)]
                            + tail.map_values(|x: ChunkEntry| entry_data(x)));
                    }
                    Some((v, p2))
                },
            }
        },
    }
}

/// Whether all stored chunk keys are pairwise distinct.
fn keys_all_unique(v: &Vec<ChunkEntry>) -> (r: bool)
    ensures
        r == (forall|i: int, j: int|
            0 <= i < j < v@.len() ==> !((#[trigger] v@[i]).cx == (#[trigger] v@[j]).cx && v@[i].cz
                == v@[j].cz)),
{
    let n = v.len();
    let mut i: usize = 0;
    while i < n
        invariant
            n == v@.len(),
            i <= n,
            forall|a: int, b: int|
                0 <= a < b < n && a < i ==> !((#[trigger] v@[a]).cx == (#[trigger] v@[b]).cx
                    && v@[a].cz == v@[b].cz),
        decreases n - i,
    {
        let mut j: usize = i + 1;
        while j < n
            invariant
                n == v@.len(),
                i < j || (i + 1 == j && j >= n),
                i < n,
                j <= n,
                forall|b: int|
                    i < b < j ==> !((#[trigger] v@[b]).cx == v@[i as int].cx && v@[b].cz
                        == v@[i as int].cz),
            decreases n - j,
        {
            if v[j].cx == v[i].cx && v[j].cz == v[i].cz {
                return false;
            }
            j = j + 1;
        }
        i = i + 1;
    }
    true
}

/// Decode a save. A malformed save — truncated or oversized input, an
/// unknown entity kind, a value outside the well-formed ranges, a
/// duplicate chunk key — decodes to nothing; otherwise the result is a
/// well-formed map holding exactly the decoded content.
pub fn decode_gamemap(words: &Vec<i64>) -> (r: Option<GameMap>)
    ensures
        match r {
            Some(m) => {
                &&& m.wf()
                &&& dec_map_data(words@) == Some(map_data(m))
            },
            None => dec_map_data(words@) is None,
        },
{
    if words.len() < 1 {
        return None;
    }
    let n = words[0];
    if n < 0 {
        return None;
    }
    match read_entries(words, 1, n) {
        None => None,
        Some((v, p2)) => {
            if p2 != words.len() {
                proof {
                    assert(words@.skip(p2 as int).len() > 0);
                }
                return None;
            }
            let ghost d = v@.map_values(|e: ChunkEntry| entry_data(e));
            if !keys_all_unique(&v) {
                proof {
                    let (a, b) = choose|a: int, b: int|
                        0 <= a < b < v@.len() && (#[trigger] v@[a]).cx == (#[trigger] v@[b]).cx
                            && v@[a].cz == v@[b].cz;
                    assert(d[a].cx == d[b].cx && d[a].cz == d[b].cz);
                    assert(!data_keys_unique(d));
                }
                return None;
            }
            let m = GameMap { map: v };
            proof {
                assert(words@.skip(p2 as int).len() == 0);
                assert forall|i: int, j: int|
                    0 <= i < j < m.map@.len() implies !(m.map@[i].cx == m.map@[j].cx && m.map@[i].cz
                    == m.map@[j].cz) by {
                    assert(d[i].cx == m.map@[i].cx && d[i].cz == m.map@[i].cz);
                    assert(d[j].cx == m.map@[j].cx && d[j].cz == m.map@[j].cz);
                }
                assert(m.wf());
                assert(map_data(m) =~= d);
            }
            Some(m)
        },
    }
}

} // verus!
