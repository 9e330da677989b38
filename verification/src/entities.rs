//! Entity state: the shared simulation record of one entity, the closed set
//! of entity kinds, per-kind collision boxes, and the world-global entity
//! registry that is the authoritative set of live entities.

use vstd::prelude::*;

verus! {

use crate::fixed::Vec3Fx;
use crate::fixed::POS_LIMIT;
use crate::fixed::VEL_LIMIT;

/// The closed set of entity kinds the simulation knows.
#[derive(Clone, Copy, Debug, PartialEq, Eq, Structural)]
pub enum EntityType {
    MainPlayer,
    Player,
    Creeper,
    Torch,
    HuTao,
    Chicken,
}

/// The simulation-relevant record of one entity. Positions and velocities
/// are fixed-point milli-units; `rotation` is yaw in milli-radians;
/// `attack_cd` is milliseconds and may go negative ("ready" is `<= 0`).
#[derive(Clone, Copy, Debug, PartialEq, Eq, Structural)]
pub struct EntityStatus {
    pub entity_type: EntityType,
    pub health: i32,
    pub position: Vec3Fx,
    pub rotation: i64,
    pub scaling: Vec3Fx,
    pub velocity: Vec3Fx,
    pub attack_cd: i64,
}

impl EntityStatus {
    /// Position within the world bounds and velocity within the velocity
    /// bounds; every operation of the simulation preserves this.
    pub open spec fn wf(self) -> bool {
        self.position.bounded(POS_LIMIT as int) && self.velocity.bounded(VEL_LIMIT as int)
    }
}

/// An axis-aligned bounding box, corners in milli-units.
#[derive(Clone, Copy, Debug, PartialEq, Eq, Structural)]
pub struct Aabb {
    pub min: Vec3Fx,
    pub max: Vec3Fx,
}

/// Whether two boxes overlap with nonempty interior (all inequalities
/// strict, as the interaction rules demand).
pub open spec fn spec_collide_with(min1: Vec3Fx, max1: Vec3Fx, min2: Vec3Fx, max2: Vec3Fx) -> bool {
    min1.x < max2.x && min1.y < max2.y && min1.z < max2.z && min2.x < max1.x && min2.y < max1.y
        && min2.z < max1.z
}

/// Strict axis-aligned box overlap test.
pub fn collide_with(min1: Vec3Fx, max1: Vec3Fx, min2: Vec3Fx, max2: Vec3Fx) -> (r: bool)
    ensures
        r == spec_collide_with(min1, max1, min2, max2),
{
    min1.x < max2.x && min1.y < max2.y && min1.z < max2.z && min2.x < max1.x && min2.y < max1.y
        && min2.z < max1.z
}

/// The collision box of each entity kind, in milli-units around the feet.
pub open spec fn spec_collision_box(t: EntityType) -> Aabb {
    match t {
        EntityType::Creeper => Aabb {
            min: Vec3Fx { x: -300i64, y: 0, z: -300i64 },
            max: Vec3Fx { x: 300i64, y: 1800i64, z: 300i64 },
        },
        EntityType::MainPlayer => Aabb {
            min: Vec3Fx { x: -300i64, y: 0, z: -300i64 },
            max: Vec3Fx { x: 300i64, y: 1800i64, z: 300i64 },
        },
        EntityType::Player => Aabb {
            min: Vec3Fx { x: -300i64, y: 0, z: -300i64 },
            max: Vec3Fx { x: 300i64, y: 1800i64, z: 300i64 },
        },
        EntityType::Torch => Aabb {
            min: Vec3Fx { x: -100i64, y: 0, z: -100i64 },
            max: Vec3Fx { x: 100i64, y: 700i64, z: 100i64 },
        },
        EntityType::HuTao => Aabb {
            min: Vec3Fx { x: -200i64, y: 0, z: -200i64 },
            max: Vec3Fx { x: 200i64, y: 400i64, z: 200i64 },
        },
        EntityType::Chicken => Aabb {
            min: Vec3Fx { x: -500i64, y: 0, z: -500i64 },
            max: Vec3Fx { x: 500i64, y: 1000i64, z: 500i64 },
        },
    }
}

/// The configuration table from entity kind to collision-box geometry.
pub fn get_collision_box_by_type(entity_type: EntityType) -> (r: Aabb)
    ensures
        r == spec_collision_box(entity_type),
{
    match entity_type {
        EntityType::Creeper => Aabb {
            min: Vec3Fx { x: -300, y: 0, z: -300 },
            max: Vec3Fx { x: 300, y: 1800, z: 300 },
        },
        EntityType::MainPlayer => Aabb {
            min: Vec3Fx { x: -300, y: 0, z: -300 },
            max: Vec3Fx { x: 300, y: 1800, z: 300 },
        },
        EntityType::Player => Aabb {
            min: Vec3Fx { x: -300, y: 0, z: -300 },
            max: Vec3Fx { x: 300, y: 1800, z: 300 },
        },
        EntityType::Torch => Aabb {
            min: Vec3Fx { x: -100, y: 0, z: -100 },
            max: Vec3Fx { x: 100, y: 700, z: 100 },
        },
        EntityType::HuTao => Aabb {
            min: Vec3Fx { x: -200, y: 0, z: -200 },
            max: Vec3Fx { x: 200, y: 400, z: 200 },
        },
        EntityType::Chicken => Aabb {
            min: Vec3Fx { x: -500, y: 0, z: -500 },
            max: Vec3Fx { x: 500, y: 1000, z: 500 },
        },
    }
}

/// Whether the box of an entity of kind `t` standing at `pos` contains the
/// point `p` (strict containment, matching `spec_collide_with` against a
/// degenerate box).
pub open spec fn entity_contains_point(t: EntityType, pos: Vec3Fx, p: Vec3Fx) -> bool {
    let b = spec_collision_box(t);
    pos.x + b.min.x < p.x < pos.x + b.max.x && pos.y + b.min.y < p.y < pos.y + b.max.y && pos.z
        + b.min.z < p.z < pos.z + b.max.z
}

/// One slot of the registry: a stable id and the entity's record.
#[derive(Clone, Copy, Debug, PartialEq, Eq, Structural)]
pub struct EntityRecord {
    pub id: u64,
    pub status: EntityStatus,
}

/// The world-global registry of live entities, indexed by stable ids that
/// are never reused.
pub struct EntityRegistry {
    pub entities: Vec<EntityRecord>,
    pub next_id: u64,
}

/// Whether some record in the sequence carries this id.
pub open spec fn has_id(s: Seq<EntityRecord>, id: u64) -> bool {
    exists|i: int| 0 <= i < s.len() && (#[trigger] s[i]).id == id
}

impl EntityRegistry {
    pub open spec fn wf(self) -> bool {
        &&& forall|i: int|
            0 <= i < self.entities@.len() ==> (#[trigger] self.entities@[i]).status.wf()
        &&& forall|i: int|
            0 <= i < self.entities@.len() ==> (#[trigger] self.entities@[i]).id < self.next_id
        &&& forall|i: int, j: int|
            0 <= i < j < self.entities@.len() ==> self.entities@[i].id != self.entities@[j].id
    }

    /// Whether some live entity carries this id.
    pub open spec fn contains_id(self, id: u64) -> bool {
        has_id(self.entities@, id)
    }

    pub fn new() -> (r: EntityRegistry)
        ensures
            r.wf(),
            r.entities@.len() == 0,
            r.next_id == 0,
    {
        EntityRegistry { entities: Vec::new(), next_id: 0 }
    }

    /// Number of live entities.
    pub fn len(&self) -> (r: usize)
        ensures
            r == self.entities@.len(),
    {
        self.entities.len()
    }

    /// Register a new entity; it receives a fresh id, never used before.
    pub fn spawn(&mut self, status: EntityStatus) -> (id: u64)
        requires
            old(self).wf(),
            status.wf(),
            old(self).next_id < u64::MAX,
        ensures
            final(self).wf(),
            id == old(self).next_id,
            !old(self).contains_id(id),
            final(self).contains_id(id),
            final(self).entities@ == old(self).entities@.push(
                EntityRecord { id: old(self).next_id, status },
            ),
            final(self).next_id == old(self).next_id + 1,
    {
        let id = self.next_id;
        self.entities.push(EntityRecord { id, status });
        self.next_id = self.next_id + 1;
        assert(self.entities@[self.entities@.len() - 1].id == id);
        id
    }

    /// Look up the registry slot that carries `id`.
    pub fn find_index(&self, id: u64) -> (r: Option<usize>)
        ensures
            match r {
                Some(i) => i < self.entities@.len() && self.entities@[i as int].id == id,
                None => !self.contains_id(id),
            },
    {
        let n = self.entities.len();
        let mut i: usize = 0;
        while i < n
            invariant
                n == self.entities@.len(),
                i <= n,
                forall|j: int| 0 <= j < i ==> (#[trigger] self.entities@[j]).id != id,
            decreases n - i,
        {
            if self.entities[i].id == id {
                return Some(i);
            }
            i = i + 1;
        }
        None
    }

    /// Read the status of the entity with this id, if it is live.
    pub fn get_status(&self, id: u64) -> (r: Option<EntityStatus>)
        ensures
            match r {
                Some(s) => exists|i: int|
                    0 <= i < self.entities@.len() && (#[trigger] self.entities@[i]).id == id
                        && self.entities@[i].status == s,
                None => !self.contains_id(id),
            },
    {
        match self.find_index(id) {
            Some(i) => Some(self.entities[i].status),
            None => None,
        }
    }
}

} // verus!
