//! Interaction events: hit/use intents against a target entity or block,
//! queued by the input side and drained once per tick, strictly after
//! production. A hit on an entity deals damage and a vertical knockback; a
//! hit on a block turns it to air.

use vstd::prelude::*;

verus! {

use crate::entities::has_id;
use crate::entities::EntityRecord;
use crate::entities::EntityRegistry;
use crate::entities::EntityStatus;
use crate::fixed::clamp_i64;
use crate::fixed::clamp_to;
use crate::fixed::sat_i32;
use crate::fixed::sub_sat_i32;
use crate::fixed::Vec3Fx;
use crate::fixed::VEL_LIMIT;
use crate::gamemap::block_coord;
use crate::gamemap::GameMap;
use crate::gamemap::AIR;

/// The vertical impulse a hit entity receives, milli-units per second.
pub const KNOCKBACK: i64 = 2000;

/// What an interaction event does: a hit carrying damage, or a use action
/// (no default effect; an extension point).
#[allow(non_camel_case_types)]
#[derive(Clone, Copy, Debug, PartialEq, Eq, Structural)]
pub enum GameEventOpration {
    HIT(i32),
    USE,
}

/// A queued operation against the entity with the given registry id.
#[derive(Clone, Copy, Debug, PartialEq, Eq, Structural)]
pub struct GameEntityEvent {
    pub target: u64,
    pub operation: GameEventOpration,
}

/// A queued operation against the block containing the given position.
#[derive(Clone, Copy, Debug, PartialEq, Eq, Structural)]
pub struct GameBlockEvent {
    pub target_position: Vec3Fx,
    pub operation: GameEventOpration,
}

impl GameBlockEvent {
    /// The target position can be floored to the block grid.
    pub open spec fn wf(self) -> bool {
        i64::MIN < self.target_position.x && i64::MIN < self.target_position.y && i64::MIN
            < self.target_position.z
    }
}

/// The player's current target: at most one of a live entity (by registry
/// id) or a block position, recomputed every tick.
#[derive(Clone, Copy, Debug, PartialEq, Eq, Structural)]
pub struct PlayerTarget {
    pub entity_id: Option<u64>,
    pub block: Option<Vec3Fx>,
}

impl Default for PlayerTarget {
    /// No target at all.
    fn default() -> (r: PlayerTarget)
        ensures
            r == (PlayerTarget { entity_id: None::<u64>, block: None::<Vec3Fx> }),
            r.wf(),
    {
        PlayerTarget { entity_id: None, block: None }
    }
}

impl PlayerTarget {
    /// Never both an entity and a block, and a block position that can be
    /// floored to the block grid.
    pub open spec fn wf(self) -> bool {
        &&& !(self.entity_id is Some && self.block is Some)
        &&& match self.block {
            Some(p) => i64::MIN < p.x && i64::MIN < p.y && i64::MIN < p.z,
            None => true,
        }
    }

    pub fn none() -> (r: PlayerTarget)
        ensures
            r == (PlayerTarget { entity_id: None::<u64>, block: None::<Vec3Fx> }),
            r.wf(),
    {
        PlayerTarget { entity_id: None, block: None }
    }
}

/// The queues of pending interaction events, drained once per tick.
pub struct EventQueue {
    pub entity_events: Vec<GameEntityEvent>,
    pub block_events: Vec<GameBlockEvent>,
}

impl EventQueue {
    pub open spec fn wf(self) -> bool {
        forall|i: int|
            0 <= i < self.block_events@.len() ==> (#[trigger] self.block_events@[i]).wf()
    }

    pub fn new() -> (r: EventQueue)
        ensures
            r.wf(),
            r.entity_events@.len() == 0,
            r.block_events@.len() == 0,
    {
        EventQueue { entity_events: Vec::new(), block_events: Vec::new() }
    }
}

/// Queue an operation against an entity.
pub fn send_event_to_entity(queue: &mut EventQueue, target: u64, operation: GameEventOpration)
    requires
        old(queue).wf(),
    ensures
        final(queue).wf(),
        final(queue).entity_events@ == old(queue).entity_events@.push(
            GameEntityEvent { target, operation },
        ),
        final(queue).block_events == old(queue).block_events,
{
    queue.entity_events.push(GameEntityEvent { target, operation });
}

/// Queue an operation against the block containing a position.
pub fn send_event_to_block(queue: &mut EventQueue, target_position: Vec3Fx, operation: GameEventOpration)
    requires
        old(queue).wf(),
        i64::MIN < target_position.x,
        i64::MIN < target_position.y,
        i64::MIN < target_position.z,
    ensures
        final(queue).wf(),
        final(queue).block_events@ == old(queue).block_events@.push(
            GameBlockEvent { target_position, operation },
        ),
        final(queue).entity_events == old(queue).entity_events,
{
    queue.block_events.push(GameBlockEvent { target_position, operation });
}

/// What one event does to one entity's status: a hit subtracts its damage
/// from the health (saturating) and adds the vertical knockback impulse; a
/// use does nothing.
pub open spec fn apply_entity_event_status(s: EntityStatus, op: GameEventOpration) -> EntityStatus {
    match op {
        GameEventOpration::HIT(damage) => EntityStatus {
            health: sat_i32(s.health as int - damage as int) as i32,
            velocity: Vec3Fx {
                y: clamp_to(s.velocity.y as int + KNOCKBACK as int, VEL_LIMIT as int) as i64,
                ..s.velocity
            },
            ..s
        },
        GameEventOpration::USE => s,
    }
}

/// One event applied to the registry contents: every record carrying the
/// target id (at most one, by well-formedness) is updated, the others stay.
pub open spec fn apply_entity_event(rs: Seq<EntityRecord>, ev: GameEntityEvent) -> Seq<
    EntityRecord,
> {
    rs.map_values(
        |r: EntityRecord|
            if r.id == ev.target {
                EntityRecord { id: r.id, status: apply_entity_event_status(r.status, ev.operation) }
            } else {
                r
            },
    )
}

/// A queue of events applied in order.
pub open spec fn apply_entity_events(rs: Seq<EntityRecord>, evs: Seq<GameEntityEvent>) -> Seq<
    EntityRecord,
>
    decreases evs.len(),
{
    if evs.len() == 0 {
        rs
    } else {
        apply_entity_event(apply_entity_events(rs, evs.drop_last()), evs.last())
    }
}

/// Drain the entity-event queue against the registry: each event is applied
/// in queue order to the entity carrying its target id; events whose target
/// is no longer live fall through without effect.
pub fn handle_entity_events(reg: &mut EntityRegistry, queue: &mut EventQueue)
    requires
        old(reg).wf(),
        old(queue).wf(),
    ensures
        final(reg).wf(),
        final(reg).entities@ == apply_entity_events(
            old(reg).entities@,
            old(queue).entity_events@,
        ),
        final(reg).next_id == old(reg).next_id,
        final(queue).wf(),
        final(queue).entity_events@.len() == 0,
        final(queue).block_events == old(queue).block_events,
{
    let n = queue.entity_events.len();
    let mut i: usize = 0;
    proof {
        assert(queue.entity_events@.take(0) =~= Seq::<GameEntityEvent>::empty());
    }
    while i < n
        invariant
            n == queue.entity_events@.len(),
            i <= n,
            *queue == *old(queue),
            reg.wf(),
            reg.next_id == old(reg).next_id,
            reg.entities@ == apply_entity_events(
                old(reg).entities@,
                queue.entity_events@.take(i as int),
            ),
            reg.entities@.len() == old(reg).entities@.len(),
        decreases n - i,
    {
        let ev = queue.entity_events[i];
        proof {
            assert(queue.entity_events@.take(i as int + 1).drop_last() =~= queue.entity_events@.take(
                i as int,
            ));
            assert(queue.entity_events@.take(i as int + 1).last() == ev);
        }
        let ghost before = reg.entities@;
        match reg.find_index(ev.target) {
            Some(k) => {
                let id = reg.entities[k].id;
                let st = reg.entities[k].status;
                let new_status = match ev.operation {
                    GameEventOpration::HIT(damage) => {
                        let mut s2 = st;
                        s2.health = sub_sat_i32(s2.health, damage);
                        s2.velocity.y = clamp_i64(s2.velocity.y + KNOCKBACK, VEL_LIMIT);
                        s2
                    },
                    GameEventOpration::USE => st,
                };
                reg.entities[k] = EntityRecord { id, status: new_status };
                proof {
                    assert forall|j: int| 0 <= j < before.len() implies reg.entities@[j]
                        == apply_entity_event(before, ev)[j] by {
                        if j != k as int {
                            assert(before[j].id != ev.target);
                        }
                    }
                    assert(reg.entities@ =~= apply_entity_event(before, ev));
                }
            },
            None => {
                proof {
                    assert forall|j: int| 0 <= j < before.len() implies before[j]
                        == apply_entity_event(before, ev)[j] by {
                        assert(before[j].id != ev.target);
                    }
                    assert(reg.entities@ =~= apply_entity_event(before, ev));
                }
            },
        }
        i = i + 1;
    }
    proof {
        assert(queue.entity_events@.take(n as int) =~= queue.entity_events@);
    }
    queue.entity_events.clear();
}

/// The block id at given block coordinates after a prefix of the block
/// events has been applied: each hit turns its target block to air if that
/// block exists (its chunk is loaded and its height is in range); a use or
/// a hit into the void changes nothing.
pub open spec fn block_after_events(
    m: GameMap,
    evs: Seq<GameBlockEvent>,
    bx: int,
    by: int,
    bz: int,
) -> Option<i32>
    decreases evs.len(),
{
    if evs.len() == 0 {
        m.spec_block_at(bx, by, bz)
    } else {
        let prev = block_after_events(m, evs.drop_last(), bx, by, bz);
        let ev = evs.last();
        match ev.operation {
            GameEventOpration::HIT(_) => {
                if bx == block_coord(ev.target_position.x as int) && by == block_coord(
                    ev.target_position.y as int,
                ) && bz == block_coord(ev.target_position.z as int) && prev is Some {
                    Some(AIR)
                } else {
                    prev
                }
            },
            GameEventOpration::USE => prev,
        }
    }
}

/// Drain the block-event queue against the map: each hit sets its target
/// block to air (a hit into the void or an unloaded chunk is a no-op), uses
/// do nothing, and the chunk layout and entity lists are untouched.
pub fn handle_block_events(map: &mut GameMap, queue: &mut EventQueue)
    requires
        old(map).wf(),
        old(queue).wf(),
    ensures
        final(map).wf(),
        final(map).map@.len() == old(map).map@.len(),
        forall|j: int|
            0 <= j < final(map).map@.len() ==> (#[trigger] final(map).map@[j]).cx == old(
                map
            ).map@[j].cx && final(map).map@[j].cz == old(map).map@[j].cz && final(
                map
            ).map@[j].chunk.entities == old(map).map@[j].chunk.entities,
        forall|bx: int, by: int, bz: int|
            #[trigger] final(map).spec_block_at(bx, by, bz) == block_after_events(
                *old(map),
                old(queue).block_events@,
                bx,
                by,
                bz,
            ),
        final(queue).wf(),
        final(queue).block_events@.len() == 0,
        final(queue).entity_events == old(queue).entity_events,
{
    let n = queue.block_events.len();
    let mut i: usize = 0;
    proof {
        assert(queue.block_events@.take(0) =~= Seq::<GameBlockEvent>::empty());
    }
    while i < n
        invariant
            n == queue.block_events@.len(),
            i <= n,
            *queue == *old(queue),
            queue.wf(),
            map.wf(),
            map.map@.len() == old(map).map@.len(),
            forall|j: int|
                0 <= j < map.map@.len() ==> (#[trigger] map.map@[j]).cx == old(map).map@[j].cx
                    && map.map@[j].cz == old(map).map@[j].cz && map.map@[j].chunk.entities == old(
                    map
                ).map@[j].chunk.entities,
            forall|bx: int, by: int, bz: int|
                #[trigger] map.spec_block_at(bx, by, bz) == block_after_events(
                    *old(map),
                    queue.block_events@.take(i as int),
                    bx,
                    by,
                    bz,
                ),
        decreases n - i,
    {
        let ev = queue.block_events[i];
        proof {
            assert(queue.block_events@.take(i as int + 1).drop_last() =~= queue.block_events@.take(
                i as int,
            ));
            assert(queue.block_events@.take(i as int + 1).last() == ev);
        }
        let ghost before = *map;
        match ev.operation {
            GameEventOpration::HIT(_) => {
                map.set_block(ev.target_position, AIR);
                proof {
                    let evs1 = queue.block_events@.take(i as int + 1);
                    assert forall|bx: int, by: int, bz: int|
                        #[trigger] map.spec_block_at(bx, by, bz) == block_after_events(
                            *old(map),
                            evs1,
                            bx,
                            by,
                            bz,
                        ) by {
                        assert(before.spec_block_at_pos(ev.target_position)
                            == before.spec_block_at(
                            block_coord(ev.target_position.x as int),
                            block_coord(ev.target_position.y as int),
                            block_coord(ev.target_position.z as int),
                        ));
                    }
                }
            },
            GameEventOpration::USE => {},
        }
        i = i + 1;
    }
    proof {
        assert(queue.block_events@.take(n as int) =~= queue.block_events@);
    }
    queue.block_events.clear();
}

} // verus!
