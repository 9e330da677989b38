//! The chunked voxel world: fixed-size chunks of integer block ids, a sparse
//! map from chunk coordinates to chunks, and the global coordinate queries.
//!
//! World coordinates are milli-units; the block containing a coordinate is
//! found by flooring to the block grid, and the chunk containing a block by
//! flooring again to the chunk grid (Euclidean division, so negative
//! coordinates land in the chunk that really contains them).

use vstd::prelude::*;

verus! {

use crate::entities::EntityStatus;
use crate::fixed::div_floor;
use crate::fixed::Vec3Fx;
use crate::fixed::UNIT;
use vstd::arithmetic::div_mod::lemma_fundamental_div_mod;
use vstd::arithmetic::div_mod::lemma_fundamental_div_mod_converse;

/// Blocks along the x and z edges of a chunk.
pub const CHUNK_SIZE: usize = 16;

/// Blocks along the y edge of a chunk; block lookups above or below this
/// range fail (treated as air by collision).
pub const CHUNK_HEIGHT: usize = 16;

/// Chunks along one edge of a freshly generated world.
pub const CHUNK_LEN: usize = 6;

/// Number of block ids stored in one chunk.
pub const CHUNK_VOLUME: usize = CHUNK_SIZE * CHUNK_HEIGHT * CHUNK_SIZE;

/// The air sentinel: every negative id is empty space.
pub const AIR: i32 = -1;

/// The one solid material freshly generated terrain is made of.
pub const STONE: i32 = 210;

/// Block coordinate of a world coordinate: floor to the block grid.
pub open spec fn block_coord(w: int) -> int {
    w / (UNIT as int)
}

/// Chunk coordinate of a block coordinate: floor to the chunk grid.
pub open spec fn chunk_coord(b: int) -> int {
    b / (CHUNK_SIZE as int)
}

/// A chunk: `CHUNK_SIZE x CHUNK_HEIGHT x CHUNK_SIZE` block ids in a flat
/// array (x-major, then y, then z), plus the entities that were registered
/// in this chunk when the world was generated or loaded. The entity list is
/// a load-time snapshot: the live set is `EntityRegistry`, and the list is
/// not re-filed as entities move across chunk borders.
pub struct Chunk {
    pub blocks: Vec<i32>,
    pub entities: Vec<EntityStatus>,
}

impl Chunk {
    pub open spec fn wf(self) -> bool {
        &&& self.blocks@.len() == CHUNK_VOLUME
        &&& forall|i: int| 0 <= i < self.entities@.len() ==> (#[trigger] self.entities@[i]).wf()
    }

    /// Index of local block coordinates in the flat array.
    pub open spec fn block_index(lx: int, ly: int, lz: int) -> int {
        (lx * (CHUNK_HEIGHT as int) + ly) * (CHUNK_SIZE as int) + lz
    }

    /// The block id at local coordinates.
    pub open spec fn local_block(self, lx: int, ly: int, lz: int) -> i32 {
        self.blocks@[Chunk::block_index(lx, ly, lz)]
    }

    pub fn get_local(&self, lx: usize, ly: usize, lz: usize) -> (r: i32)
        requires
            self.wf(),
            lx < CHUNK_SIZE,
            ly < CHUNK_HEIGHT,
            lz < CHUNK_SIZE,
        ensures
            r == self.local_block(lx as int, ly as int, lz as int),
    {
        self.blocks[(lx * CHUNK_HEIGHT + ly) * CHUNK_SIZE + lz]
    }

    pub fn set_local(&mut self, lx: usize, ly: usize, lz: usize, id: i32)
        requires
            old(self).wf(),
            lx < CHUNK_SIZE,
            ly < CHUNK_HEIGHT,
            lz < CHUNK_SIZE,
        ensures
            final(self).wf(),
            final(self).blocks@ == old(self).blocks@.update(
                Chunk::block_index(lx as int, ly as int, lz as int),
                id,
            ),
            final(self).entities == old(self).entities,
    {
        let i = (lx * CHUNK_HEIGHT + ly) * CHUNK_SIZE + lz;
        self.blocks[i] = id;
    }
}

/// One loaded chunk and its coordinates on the chunk grid.
pub struct ChunkEntry {
    pub cx: i64,
    pub cz: i64,
    pub chunk: Chunk,
}

/// The whole game map: the loaded chunks, keyed by chunk coordinates.
/// No chunk is loaded or unloaded during a session; queries outside the
/// loaded set answer "no block".
pub struct GameMap {
    pub map: Vec<ChunkEntry>,
}

impl Default for GameMap {
    /// The empty map: no chunk is loaded, every lookup answers air.
    fn default() -> (r: GameMap)
        ensures
            r.wf(),
            r.map@.len() == 0,
    {
        GameMap { map: Vec::new() }
    }
}

impl GameMap {
    pub open spec fn wf(self) -> bool {
        &&& forall|i: int| 0 <= i < self.map@.len() ==> (#[trigger] self.map@[i]).chunk.wf()
        &&& forall|i: int, j: int|
            0 <= i < j < self.map@.len() ==> !(self.map@[i].cx == self.map@[j].cx
                && self.map@[i].cz == self.map@[j].cz)
    }

    /// Whether the chunk at these chunk coordinates is loaded.
    pub open spec fn has_chunk(self, cx: int, cz: int) -> bool {
        exists|i: int|
            0 <= i < self.map@.len() && (#[trigger] self.map@[i]).cx == cx && self.map@[i].cz == cz
    }

    /// The slot of the chunk at these chunk coordinates (meaningful only
    /// when `has_chunk` holds; unique by well-formedness).
    pub open spec fn chunk_index_of(self, cx: int, cz: int) -> int {
        choose|i: int|
            0 <= i < self.map@.len() && (#[trigger] self.map@[i]).cx == cx && self.map@[i].cz == cz
    }

    /// The loaded chunk at these chunk coordinates.
    pub open spec fn chunk_at(self, cx: int, cz: int) -> Chunk {
        self.map@[self.chunk_index_of(cx, cz)].chunk
    }

    /// A slot holding the given key pins down `chunk_index_of`.
    pub proof fn lemma_chunk_index(self, cx: int, cz: int, i: int)
        requires
            self.wf(),
            0 <= i < self.map@.len(),
            self.map@[i].cx == cx,
            self.map@[i].cz == cz,
        ensures
            self.has_chunk(cx, cz),
            self.chunk_index_of(cx, cz) == i,
            self.chunk_at(cx, cz) == self.map@[i].chunk,
    {
        assert(self.has_chunk(cx, cz));
        let j = self.chunk_index_of(cx, cz);
        assert(0 <= j < self.map@.len() && self.map@[j].cx == cx && self.map@[j].cz == cz);
        if i < j {
            assert(!(self.map@[i].cx == self.map@[j].cx && self.map@[i].cz == self.map@[j].cz));
        } else if j < i {
            assert(!(self.map@[j].cx == self.map@[i].cx && self.map@[j].cz == self.map@[i].cz));
        }
    }

    /// Two maps whose slots carry the same keys agree on which chunks exist
    /// and where they sit.
    pub proof fn lemma_same_layout(self, other: GameMap, cx: int, cz: int)
        requires
            self.wf(),
            other.wf(),
            self.map@.len() == other.map@.len(),
            forall|j: int|
                0 <= j < self.map@.len() ==> (#[trigger] self.map@[j]).cx == other.map@[j].cx
                    && self.map@[j].cz == other.map@[j].cz,
        ensures
            self.has_chunk(cx, cz) == other.has_chunk(cx, cz),
            self.has_chunk(cx, cz) ==> self.chunk_index_of(cx, cz) == other.chunk_index_of(cx, cz),
    {
        if self.has_chunk(cx, cz) {
            let i = self.chunk_index_of(cx, cz);
            assert(0 <= i < self.map@.len() && self.map@[i].cx == cx && self.map@[i].cz == cz);
            other.lemma_chunk_index(cx, cz, i);
        } else if other.has_chunk(cx, cz) {
            let i = other.chunk_index_of(cx, cz);
            assert(0 <= i < other.map@.len() && other.map@[i].cx == cx && other.map@[i].cz == cz);
            self.lemma_chunk_index(cx, cz, i);
        }
    }

    /// The block id stored at block coordinates, or `None` if `by` is out
    /// of the vertical range or the owning chunk is not loaded.
    pub open spec fn spec_block_at(self, bx: int, by: int, bz: int) -> Option<i32> {
        let cx = chunk_coord(bx);
        let cz = chunk_coord(bz);
        if 0 <= by < CHUNK_HEIGHT as int && self.has_chunk(cx, cz) {
            Some(
                self.chunk_at(cx, cz).local_block(
                    bx - cx * (CHUNK_SIZE as int),
                    by,
                    bz - cz * (CHUNK_SIZE as int),
                ),
            )
        } else {
            None
        }
    }

    /// The block id at a world position (milli-units).
    pub open spec fn spec_block_at_pos(self, p: Vec3Fx) -> Option<i32> {
        self.spec_block_at(block_coord(p.x as int), block_coord(p.y as int), block_coord(p.z as int))
    }

    /// Whether the block at world coordinates (milli-units) is solid. An
    /// absent chunk or an out-of-range height counts as air.
    pub open spec fn occupied_at_coords(self, x: int, y: int, z: int) -> bool {
        match self.spec_block_at(block_coord(x), block_coord(y), block_coord(z)) {
            Some(id) => id >= 0,
            None => false,
        }
    }

    /// Whether the block at a world position is solid.
    pub open spec fn occupied_at(self, p: Vec3Fx) -> bool {
        self.occupied_at_coords(p.x as int, p.y as int, p.z as int)
    }

    /// Slot of the chunk with the given key, by linear scan.
    pub fn find_chunk(&self, cx: i64, cz: i64) -> (r: Option<usize>)
        ensures
            match r {
                Some(i) => i < self.map@.len() && self.map@[i as int].cx == cx
                    && self.map@[i as int].cz == cz,
                None => !self.has_chunk(cx as int, cz as int),
            },
    {
        let n = self.map.len();
        let mut i: usize = 0;
        while i < n
            invariant
                n == self.map@.len(),
                i <= n,
                forall|j: int|
                    0 <= j < i ==> !((#[trigger] self.map@[j]).cx == cx && self.map@[j].cz == cz),
            decreases n - i,
        {
            if self.map[i].cx == cx && self.map[i].cz == cz {
                return Some(i);
            }
            i = i + 1;
        }
        None
    }

    /// Chunk coordinates of the chunk a world position belongs to
    /// (Euclidean flooring on both grids).
    pub fn query_chunk_by_xyz(&self, xyz: Vec3Fx) -> (r: (i64, i64))
        requires
            i64::MIN < xyz.x,
            i64::MIN < xyz.z,
        ensures
            r.0 == chunk_coord(block_coord(xyz.x as int)),
            r.1 == chunk_coord(block_coord(xyz.z as int)),
    {
        let bx = div_floor(xyz.x, UNIT);
        let bz = div_floor(xyz.z, UNIT);
        let cx = div_floor(bx, CHUNK_SIZE as i64);
        let cz = div_floor(bz, CHUNK_SIZE as i64);
        (cx, cz)
    }

    /// The block id at a world position, or `None` outside the loaded
    /// world. Callers treat `None` like air.
    pub fn query_block_by_xyz(&self, xyz: Vec3Fx) -> (r: Option<i32>)
        requires
            self.wf(),
            i64::MIN < xyz.x,
            i64::MIN < xyz.y,
            i64::MIN < xyz.z,
        ensures
            r == self.spec_block_at_pos(xyz),
    {
        let bx = div_floor(xyz.x, UNIT);
        let by = div_floor(xyz.y, UNIT);
        let bz = div_floor(xyz.z, UNIT);
        if by < 0 || by >= CHUNK_HEIGHT as i64 {
            return None;
        }
        let cx = div_floor(bx, CHUNK_SIZE as i64);
        let cz = div_floor(bz, CHUNK_SIZE as i64);
        match self.find_chunk(cx, cz) {
            Some(i) => {
                proof {
                    self.lemma_chunk_index(cx as int, cz as int, i as int);
                    lemma_fundamental_div_mod(bx as int, CHUNK_SIZE as int);
                    lemma_fundamental_div_mod(bz as int, CHUNK_SIZE as int);
                }
                let lx = (bx - cx * (CHUNK_SIZE as i64)) as usize;
                let lz = (bz - cz * (CHUNK_SIZE as i64)) as usize;
                let ly = by as usize;
                Some(self.map[i].chunk.get_local(lx, ly, lz))
            },
            None => None,
        }
    }

    /// Overwrite the block id at a world position. If the position is above
    /// or below the vertical range, or its chunk is not loaded, the map is
    /// left unchanged (a silent no-op, as block lookups there answer air).
    pub fn set_block(&mut self, xyz: Vec3Fx, id: i32)
        requires
            old(self).wf(),
            i64::MIN < xyz.x,
            i64::MIN < xyz.y,
            i64::MIN < xyz.z,
        ensures
            final(self).wf(),
            final(self).map@.len() == old(self).map@.len(),
            forall|j: int|
                0 <= j < final(self).map@.len() ==> (#[trigger] final(self).map@[j]).cx == old(
                    self
                ).map@[j].cx && final(self).map@[j].cz == old(self).map@[j].cz && final(
                    self
                ).map@[j].chunk.entities == old(self).map@[j].chunk.entities,
            old(self).spec_block_at_pos(xyz).is_none() ==> *final(self) == *old(self),
            forall|bx2: int, by2: int, bz2: int|
                #[trigger] final(self).spec_block_at(bx2, by2, bz2) == (if bx2 == block_coord(
                    xyz.x as int,
                ) && by2 == block_coord(xyz.y as int) && bz2 == block_coord(xyz.z as int) && old(
                    self
                ).spec_block_at_pos(xyz).is_some() {
                    Some(id)
                } else {
                    old(self).spec_block_at(bx2, by2, bz2)
                }),
    {
        let bx = div_floor(xyz.x, UNIT);
        let by = div_floor(xyz.y, UNIT);
        let bz = div_floor(xyz.z, UNIT);
        if by < 0 || by >= CHUNK_HEIGHT as i64 {
            return ;
        }
        let cx = div_floor(bx, CHUNK_SIZE as i64);
        let cz = div_floor(bz, CHUNK_SIZE as i64);
        match self.find_chunk(cx, cz) {
            Some(i) => {
                proof {
                    self.lemma_chunk_index(cx as int, cz as int, i as int);
                    lemma_fundamental_div_mod(bx as int, CHUNK_SIZE as int);
                    lemma_fundamental_div_mod(bz as int, CHUNK_SIZE as int);
                }
                let lx = (bx - cx * (CHUNK_SIZE as i64)) as usize;
                let lz = (bz - cz * (CHUNK_SIZE as i64)) as usize;
                let ly = by as usize;
                let entry = &mut self.map[i];
                entry.chunk.set_local(lx, ly, lz, id);
                proof {
                    self.lemma_set_block_shape(*old(self), xyz, id, i as int);
                }
            },
            None => {
                assert(!old(self).has_chunk(
                    chunk_coord(block_coord(xyz.x as int)),
                    chunk_coord(block_coord(xyz.z as int)),
                ));
            },
        }
    }

    /// After overwriting one slot's block array at the target index, every
    /// block lookup answers as `set_block` promises.
    proof fn lemma_set_block_shape(self, prev: GameMap, xyz: Vec3Fx, id: i32, i: int)
        requires
            prev.wf(),
            0 <= i < prev.map@.len(),
            self.map@.len() == prev.map@.len(),
            forall|j: int| 0 <= j < prev.map@.len() && j != i ==> self.map@[j] == prev.map@[j],
            self.map@[i].cx == prev.map@[i].cx,
            self.map@[i].cz == prev.map@[i].cz,
            self.map@[i].chunk.entities == prev.map@[i].chunk.entities,
            prev.map@[i].cx == chunk_coord(block_coord(xyz.x as int)),
            prev.map@[i].cz == chunk_coord(block_coord(xyz.z as int)),
            0 <= block_coord(xyz.y as int) < CHUNK_HEIGHT as int,
            self.map@[i].chunk.blocks@ == prev.map@[i].chunk.blocks@.update(
                Chunk::block_index(
                    block_coord(xyz.x as int) - chunk_coord(block_coord(xyz.x as int)) * (
                    CHUNK_SIZE as int),
                    block_coord(xyz.y as int),
                    block_coord(xyz.z as int) - chunk_coord(block_coord(xyz.z as int)) * (
                    CHUNK_SIZE as int),
                ),
                id,
            ),
        ensures
            self.wf(),
            prev.spec_block_at_pos(xyz).is_some(),
            forall|bx2: int, by2: int, bz2: int|
                #[trigger] self.spec_block_at(bx2, by2, bz2) == (if bx2 == block_coord(xyz.x as int)
                    && by2 == block_coord(xyz.y as int) && bz2 == block_coord(xyz.z as int) {
                    Some(id)
                } else {
                    prev.spec_block_at(bx2, by2, bz2)
                }),
    {
        let bx = block_coord(xyz.x as int);
        let by = block_coord(xyz.y as int);
        let bz = block_coord(xyz.z as int);
        let cx = chunk_coord(bx);
        let cz = chunk_coord(bz);
        let s = CHUNK_SIZE as int;
        lemma_fundamental_div_mod(bx, s);
        lemma_fundamental_div_mod(bz, s);
        assert(self.wf());
        prev.lemma_chunk_index(cx, cz, i);
        self.lemma_chunk_index(cx, cz, i);
        assert forall|bx2: int, by2: int, bz2: int|
            #[trigger] self.spec_block_at(bx2, by2, bz2) == (if bx2 == bx && by2 == by && bz2 == bz {
                Some(id)
            } else {
                prev.spec_block_at(bx2, by2, bz2)
            }) by {
            let cx2 = chunk_coord(bx2);
            let cz2 = chunk_coord(bz2);
            self.lemma_same_layout(prev, cx2, cz2);
            if self.has_chunk(cx2, cz2) && 0 <= by2 < CHUNK_HEIGHT as int {
                let k = self.chunk_index_of(cx2, cz2);
                assert(prev.chunk_index_of(cx2, cz2) == k);
                if k != i {
                    assert(self.map@[k] == prev.map@[k]);
                } else {
                    lemma_fundamental_div_mod(bx2, s);
                    lemma_fundamental_div_mod(bz2, s);
                    let lx = bx - cx * s;
                    let lz = bz - cz * s;
                    let lx2 = bx2 - cx2 * s;
                    let lz2 = bz2 - cz2 * s;
                    assert(0 <= lx < s && 0 <= lz < s && 0 <= lx2 < s && 0 <= lz2 < s);
                    if bx2 == bx && by2 == by && bz2 == bz {
                        assert(self.spec_block_at(bx2, by2, bz2) == Some(id));
                    } else {
                        assert(Chunk::block_index(lx2, by2, lz2) != Chunk::block_index(lx, by, lz))
                            by (nonlinear_arith)
                            requires
                                s == 16,
                                0 <= lx < s,
                                0 <= lz < s,
                                0 <= lx2 < s,
                                0 <= lz2 < s,
                                0 <= by < CHUNK_HEIGHT as int,
                                0 <= by2 < CHUNK_HEIGHT as int,
                                CHUNK_HEIGHT as int == 16,
                                !(lx2 == lx && by2 == by && lz2 == lz),
                                cx2 == cx || lx2 != lx || bx2 == bx,
                                Chunk::block_index(lx, by, lz) == (lx * 16 + by) * 16 + lz,
                                Chunk::block_index(lx2, by2, lz2) == (lx2 * 16 + by2) * 16 + lz2,
                        ;
                        assert(self.spec_block_at(bx2, by2, bz2) == prev.spec_block_at(
                            bx2,
                            by2,
                            bz2,
                        ));
                    }
                }
            }
        }
    }

    /// Add a chunk under a key that is not yet loaded.
    pub fn insert_chunk(&mut self, cx: i64, cz: i64, chunk: Chunk)
        requires
            old(self).wf(),
            chunk.wf(),
            !old(self).has_chunk(cx as int, cz as int),
        ensures
            final(self).wf(),
            final(self).map@ == old(self).map@.push(ChunkEntry { cx, cz, chunk }),
            final(self).has_chunk(cx as int, cz as int),
            final(self).chunk_at(cx as int, cz as int) == final(self).map@[final(
                self
            ).map@.len() - 1].chunk,
    {
        self.map.push(ChunkEntry { cx, cz, chunk });
        proof {
            let n = self.map@.len() - 1;
            assert forall|i: int, j: int| 0 <= i < j < self.map@.len() implies !(self.map@[i].cx
                == self.map@[j].cx && self.map@[i].cz == self.map@[j].cz) by {
                if j == n {
                    assert(!(old(self).map@[i].cx == cx && old(self).map@[i].cz == cz));
                }
            }
            self.lemma_chunk_index(cx as int, cz as int, n);
        }
    }
}

/// The chunk grid really floors world coordinates: the chunk coordinate of
/// a world coordinate (milli-units) is its floor quotient by the chunk edge
/// length in milli-units, negative coordinates included.
pub proof fn lemma_chunk_of_floor(w: int)
    ensures
        chunk_coord(block_coord(w)) == w / ((CHUNK_SIZE * 1000) as int),
{
    let u = UNIT as int;
    let s = CHUNK_SIZE as int;
    let b = w / u;
    let c = b / s;
    lemma_fundamental_div_mod(w, u);
    lemma_fundamental_div_mod(b, s);
    let r1 = w % u;
    let r2 = b % s;
    // w == u * (s * c + r2) + r1 == (u * s) * c + (u * r2 + r1), and the
    // combined remainder lies in [0, u * s).
    assert(w == (u * s) * c + (u * r2 + r1)) by (nonlinear_arith)
        requires
            w == u * b + r1,
            b == s * c + r2,
    ;
    assert(0 <= u * r2 + r1 < u * s) by (nonlinear_arith)
        requires
            0 <= r1 < u,
            0 <= r2 < s,
            u == 1000,
            s == 16,
    ;
    lemma_fundamental_div_mod_converse(w, u * s, c, u * r2 + r1);
}

} // verus!
