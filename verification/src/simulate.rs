//! The fixed-timestep entity simulator: velocity integration with per-axis
//! collision resolution against the game map, gravity, cooldown decay, and
//! the death pass that despawns entities whose health reached zero.
//!
//! One tick covers `dt` milliseconds, `1 <= dt <= 1000`. Vertical collision
//! is resolved first, then x, then z; each later axis sees the partially
//! corrected position of the earlier ones, so an entity slides along a wall
//! instead of clipping through a floor.

use vstd::prelude::*;

verus! {

use crate::entities::has_id;
use crate::entities::EntityRecord;
use crate::entities::EntityRegistry;
use crate::entities::EntityStatus;
use crate::fixed::clamp_i64;
use crate::fixed::clamp_to;
use crate::fixed::div_floor;
use crate::fixed::in_range;
use crate::fixed::sat_i64;
use crate::fixed::sub_sat_i64;
use crate::fixed::Vec3Fx;
use crate::fixed::POS_LIMIT;
use crate::fixed::UNIT;
use crate::fixed::VEL_LIMIT;
use crate::gamemap::block_coord;
use crate::gamemap::GameMap;
use vstd::arithmetic::div_mod::lemma_div_is_ordered;

/// Gravity, in milli-units per second per second.
pub const GRAVITY: i64 = 9800;

/// How far a coordinate moves in one tick: `v * dt` milli-units per
/// thousand milliseconds, floored to the grid of milli-units.
pub open spec fn displacement(v: int, dt: int) -> int {
    (v * dt) / (UNIT as int)
}

/// One coordinate after integration, clamped into the world bounds.
pub open spec fn step_coord(p: int, v: int, dt: int) -> int {
    clamp_to(p + displacement(v, dt), POS_LIMIT as int)
}

/// The candidate position of one tick before collision resolution.
pub open spec fn candidate_pos(s: EntityStatus, dt: int) -> Vec3Fx {
    Vec3Fx {
        x: step_coord(s.position.x as int, s.velocity.x as int, dt) as i64,
        y: step_coord(s.position.y as int, s.velocity.y as int, dt) as i64,
        z: step_coord(s.position.z as int, s.velocity.z as int, dt) as i64,
    }
}

/// Vertical collision: the candidate stands in a solid block and crossed a
/// block boundary along y.
pub open spec fn hit_y(s: EntityStatus, m: GameMap, dt: int) -> bool {
    let n = candidate_pos(s, dt);
    m.occupied_at_coords(n.x as int, n.y as int, n.z as int) && block_coord(n.y as int)
        != block_coord(s.position.y as int)
}

/// The y coordinate after vertical resolution.
pub open spec fn pos_y_after(s: EntityStatus, m: GameMap, dt: int) -> int {
    if hit_y(s, m, dt) {
        s.position.y as int
    } else {
        candidate_pos(s, dt).y as int
    }
}

/// Horizontal x collision, tested at the vertically corrected position.
pub open spec fn hit_x(s: EntityStatus, m: GameMap, dt: int) -> bool {
    let n = candidate_pos(s, dt);
    m.occupied_at_coords(n.x as int, pos_y_after(s, m, dt), n.z as int) && block_coord(n.x as int)
        != block_coord(s.position.x as int)
}

/// The x coordinate after horizontal resolution.
pub open spec fn pos_x_after(s: EntityStatus, m: GameMap, dt: int) -> int {
    if hit_x(s, m, dt) {
        s.position.x as int
    } else {
        candidate_pos(s, dt).x as int
    }
}

/// Horizontal z collision, tested at the position corrected along y and x.
pub open spec fn hit_z(s: EntityStatus, m: GameMap, dt: int) -> bool {
    let n = candidate_pos(s, dt);
    m.occupied_at_coords(pos_x_after(s, m, dt), pos_y_after(s, m, dt), n.z as int) && block_coord(
        n.z as int,
    ) != block_coord(s.position.z as int)
}

/// The z coordinate after resolution.
pub open spec fn pos_z_after(s: EntityStatus, m: GameMap, dt: int) -> int {
    if hit_z(s, m, dt) {
        s.position.z as int
    } else {
        candidate_pos(s, dt).z as int
    }
}

/// The whole movement step of one tick: integrate the velocity, resolve
/// collisions axis by axis (y, then x, then z; a blocked axis reverts its
/// coordinate and zeroes its velocity component), and let the attack
/// cooldown decay by `dt` milliseconds (it may go negative).
pub open spec fn move_entity_spec(s: EntityStatus, m: GameMap, dt: int) -> EntityStatus {
    EntityStatus {
        position: Vec3Fx {
            x: pos_x_after(s, m, dt) as i64,
            y: pos_y_after(s, m, dt) as i64,
            z: pos_z_after(s, m, dt) as i64,
        },
        velocity: Vec3Fx {
            x: if hit_x(s, m, dt) {
                0
            } else {
                s.velocity.x
            },
            y: if hit_y(s, m, dt) {
                0
            } else {
                s.velocity.y
            },
            z: if hit_z(s, m, dt) {
                0
            } else {
                s.velocity.z
            },
        },
        attack_cd: sat_i64(s.attack_cd as int - dt) as i64,
        ..s
    }
}

/// The gravity pass of one tick: in air the vertical velocity falls by
/// `GRAVITY * dt / 1000` (clamped at the velocity bound); standing in a
/// solid block it is clamped up to be nonnegative, so a resting entity does
/// not sink.
pub open spec fn gravity_spec(s: EntityStatus, m: GameMap, dt: int) -> EntityStatus {
    let vy = s.velocity.y as int;
    let new_vy = if m.occupied_at_coords(s.position.x as int, s.position.y as int, s.position.z as int) {
        if vy < 0 {
            0
        } else {
            vy
        }
    } else {
        clamp_to(vy - (GRAVITY as int * dt) / (UNIT as int), VEL_LIMIT as int)
    };
    EntityStatus { velocity: Vec3Fx { y: new_vy as i64, ..s.velocity }, ..s }
}

/// One full tick of a single entity: movement, then gravity.
pub open spec fn tick_status_spec(s: EntityStatus, m: GameMap, dt: int) -> EntityStatus {
    gravity_spec(move_entity_spec(s, m, dt), m, dt)
}

/// One full tick of a registry record: the id is untouched.
pub open spec fn tick_record(r: EntityRecord, m: GameMap, dt: int) -> EntityRecord {
    EntityRecord { id: r.id, status: tick_status_spec(r.status, m, dt) }
}

/// The records that survive the death pass: health strictly positive, in
/// the order they stood in.
pub open spec fn live_only(s: Seq<EntityRecord>) -> Seq<EntityRecord>
    decreases s.len(),
{
    if s.len() == 0 {
        Seq::empty()
    } else {
        let rest = live_only(s.drop_last());
        if s.last().status.health > 0 {
            rest.push(s.last())
        } else {
            rest
        }
    }
}

/// Integrate one coordinate: `p + v * dt / 1000`, clamped to the world.
fn step_axis(p: i64, v: i64, dt: i64) -> (r: i64)
    requires
        in_range(p as int, POS_LIMIT as int),
        in_range(v as int, VEL_LIMIT as int),
        1 <= dt <= 1000,
    ensures
        r as int == step_coord(p as int, v as int, dt as int),
        in_range(r as int, POS_LIMIT as int),
{
    proof {
        assert(-1_000_000_000_000 <= v as int * dt as int <= 1_000_000_000_000)
            by (nonlinear_arith)
            requires
                -1_000_000_000 <= v as int <= 1_000_000_000,
                1 <= dt as int <= 1000,
        ;
    }
    let prod = v * dt;
    let disp = div_floor(prod, UNIT);
    proof {
        assert((prod as int) < 0 ==> prod as int <= disp as int <= 0);
        assert(prod as int >= 0 ==> 0 <= disp as int <= prod as int);
    }
    clamp_i64(p + disp, POS_LIMIT)
}

/// Exec mirror of `block_coord`.
fn block_coord_of(w: i64) -> (r: i64)
    requires
        i64::MIN < w,
    ensures
        r as int == block_coord(w as int),
{
    div_floor(w, UNIT)
}

/// Move one entity for one tick: integrate its velocity into its position
/// with per-axis collision resolution against the map (y first, then x,
/// then z), zero the velocity of each blocked axis, and let the attack
/// cooldown decay.
pub fn entity_move(status: &mut EntityStatus, map: &GameMap, dt: i64)
    requires
        old(status).wf(),
        map.wf(),
        1 <= dt <= 1000,
    ensures
        *final(status) == move_entity_spec(*old(status), *map, dt as int),
        final(status).wf(),
{
    let px = status.position.x;
    let py = status.position.y;
    let pz = status.position.z;
    let nx = step_axis(px, status.velocity.x, dt);
    let ny = step_axis(py, status.velocity.y, dt);
    let nz = step_axis(pz, status.velocity.z, dt);
    let mut new_pos = Vec3Fx { x: nx, y: ny, z: nz };
    let mut block_id = map.query_block_by_xyz(new_pos);
    if solid(block_id) && block_coord_of(ny) != block_coord_of(py) {
        new_pos.y = py;
        status.velocity.y = 0;
        block_id = map.query_block_by_xyz(new_pos);
    }
    if solid(block_id) && block_coord_of(nx) != block_coord_of(px) {
        new_pos.x = px;
        status.velocity.x = 0;
        block_id = map.query_block_by_xyz(new_pos);
    }
    if solid(block_id) && block_coord_of(nz) != block_coord_of(pz) {
        new_pos.z = pz;
        status.velocity.z = 0;
    }
    status.position = new_pos;
    status.attack_cd = sub_sat_i64(status.attack_cd, dt);
}

/// Whether a block query answered a solid block (missing chunks and
/// out-of-range heights count as air).
fn solid(block_id: Option<i32>) -> (r: bool)
    ensures
        r == match block_id {
            Some(id) => id >= 0,
            None => false,
        },
{
    match block_id {
        Some(id) => id >= 0,
        None => false,
    }
}

/// Apply the gravity pass of one tick to one entity.
pub fn gravity(status: &mut EntityStatus, map: &GameMap, dt: i64)
    requires
        old(status).wf(),
        map.wf(),
        1 <= dt <= 1000,
    ensures
        *final(status) == gravity_spec(*old(status), *map, dt as int),
        final(status).wf(),
{
    let block_id = map.query_block_by_xyz(status.position);
    if solid(block_id) {
        if status.velocity.y < 0 {
            status.velocity.y = 0;
        }
    } else {
        let fall = div_floor(GRAVITY * dt, UNIT);
        status.velocity.y = clamp_i64(status.velocity.y - fall, VEL_LIMIT);
    }
}

/// Everything the death pass keeps was in the sequence, healthy, in order;
/// in particular no id appears that was not there before, and dead records
/// are gone.
pub proof fn lemma_live_only(s: Seq<EntityRecord>)
    ensures
        forall|k: int|
            0 <= k < live_only(s).len() ==> (#[trigger] live_only(s)[k]).status.health > 0,
        forall|k: int| 0 <= k < live_only(s).len() ==> s.contains(#[trigger] live_only(s)[k]),
        forall|id: u64| #[trigger] has_id(live_only(s), id) ==> has_id(s, id),
        (forall|i: int, j: int| 0 <= i < j < s.len() ==> s[i].id != s[j].id) ==> (forall|
            i: int,
            j: int,
        |
            0 <= i < j < live_only(s).len() ==> live_only(s)[i].id != live_only(s)[j].id),
    decreases s.len(),
{
    if s.len() == 0 {
    } else {
        let rest = s.drop_last();
        lemma_live_only(rest);
        assert(forall|k: int| 0 <= k < rest.len() ==> rest[k] == s[k]);
        assert forall|k: int| 0 <= k < live_only(s).len() implies s.contains(
            #[trigger] live_only(s)[k],
        ) by {
            if k < live_only(rest).len() {
                assert(rest.contains(live_only(rest)[k]));
                let w = choose|w: int| 0 <= w < rest.len() && rest[w] == live_only(rest)[k];
                assert(s[w] == live_only(s)[k]);
            } else {
                assert(s[s.len() - 1] == live_only(s)[k]);
            }
        }
        assert forall|id: u64| #[trigger] has_id(live_only(s), id) implies has_id(s, id) by {
            let k = choose|k: int| 0 <= k < live_only(s).len() && (#[trigger] live_only(s)[k]).id
                == id;
            assert(s.contains(live_only(s)[k]));
            let w = choose|w: int| 0 <= w < s.len() && s[w] == live_only(s)[k];
            assert(s[w].id == id);
        }
        if forall|i: int, j: int| 0 <= i < j < s.len() ==> s[i].id != s[j].id {
            assert(forall|i: int, j: int| 0 <= i < j < rest.len() ==> rest[i].id != rest[j].id);
            if s.last().status.health > 0 {
                assert forall|i: int, j: int|
                    0 <= i < j < live_only(s).len() implies live_only(s)[i].id != live_only(
                    s,
                )[j].id by {
                    if j == live_only(s).len() - 1 {
                        if has_id(live_only(rest), s.last().id) {
                            let k = choose|k: int|
                                0 <= k < live_only(rest).len() && (#[trigger] live_only(
                                    rest,
                                )[k]).id == s.last().id;
                            assert(has_id(rest, s.last().id));
                            let w = choose|w: int|
                                0 <= w < rest.len() && (#[trigger] rest[w]).id == s.last().id;
                            assert(s[w].id == s[s.len() - 1].id);
                            assert(false);
                        }
                        assert(live_only(s)[i].id != live_only(s)[j].id);
                    }
                }
            }
        }
    }
}

/// The death pass: remove every entity whose health is `<= 0`. Despawned
/// entities never come back; the survivors keep their order and ids.
pub fn die(reg: &mut EntityRegistry)
    requires
        old(reg).wf(),
    ensures
        final(reg).wf(),
        final(reg).entities@ == live_only(old(reg).entities@),
        final(reg).next_id == old(reg).next_id,
{
    let n = reg.entities.len();
    let mut kept: Vec<EntityRecord> = Vec::new();
    let mut i: usize = 0;
    proof {
        assert(reg.entities@.take(0) =~= Seq::<EntityRecord>::empty());
    }
    while i < n
        invariant
            n == reg.entities@.len(),
            i <= n,
            kept@ == live_only(reg.entities@.take(i as int)),
        decreases n - i,
    {
        let r = reg.entities[i];
        proof {
            assert(reg.entities@.take(i as int + 1).drop_last() =~= reg.entities@.take(i as int));
            assert(reg.entities@.take(i as int + 1).last() == reg.entities@[i as int]);
        }
        if r.status.health > 0 {
            kept.push(r);
        }
        i = i + 1;
    }
    proof {
        assert(reg.entities@.take(n as int) =~= reg.entities@);
        lemma_live_only(reg.entities@);
    }
    reg.entities = kept;
}

/// One full simulation tick over the whole registry: every live entity is
/// moved, gravity-adjusted and cooled down, then the death pass removes
/// every entity whose health is not positive.
pub fn simulate_tick(reg: &mut EntityRegistry, map: &GameMap, dt: i64)
    requires
        old(reg).wf(),
        map.wf(),
        1 <= dt <= 1000,
    ensures
        final(reg).wf(),
        final(reg).entities@ == live_only(
            old(reg).entities@.map_values(|r: EntityRecord| tick_record(r, *map, dt as int)),
        ),
        final(reg).next_id == old(reg).next_id,
        forall|k: int|
            0 <= k < final(reg).entities@.len() ==> (#[trigger] final(
                reg
            ).entities@[k]).status.health > 0,
{
    let n = reg.entities.len();
    let mut i: usize = 0;
    while i < n
        invariant
            n == reg.entities@.len(),
            n == old(reg).entities@.len(),
            i <= n,
            map.wf(),
            1 <= dt <= 1000,
            reg.next_id == old(reg).next_id,
            forall|j: int|
                i <= j < n ==> (#[trigger] reg.entities@[j]) == old(reg).entities@[j],
            forall|j: int|
                0 <= j < i ==> (#[trigger] reg.entities@[j]) == tick_record(
                    old(reg).entities@[j],
                    *map,
                    dt as int,
                ),
            forall|j: int| 0 <= j < i ==> (#[trigger] reg.entities@[j]).status.wf(),
            old(reg).wf(),
        decreases n - i,
    {
        let id = reg.entities[i].id;
        let mut st = reg.entities[i].status;
        entity_move(&mut st, map, dt);
        gravity(&mut st, map, dt);
        reg.entities[i] = EntityRecord { id, status: st };
        i = i + 1;
    }
    proof {
        assert(reg.entities@ =~= old(reg).entities@.map_values(
            |r: EntityRecord| tick_record(r, *map, dt as int),
        ));
        assert(reg.wf());
    }
    proof {
        lemma_live_only(
            old(reg).entities@.map_values(|r: EntityRecord| tick_record(r, *map, dt as int)),
        );
    }
    die(reg);
}

/// Collision non-penetration: whenever an axis is blocked in one
/// integration step (the candidate position stands in a solid block and the
/// entity crossed a block boundary along that axis), the position along
/// that axis is reverted to its pre-step value and the velocity component
/// along it is zeroed.
pub proof fn lemma_collision_non_penetration(s: EntityStatus, m: GameMap, dt: int)
    ensures
        hit_y(s, m, dt) ==> move_entity_spec(s, m, dt).position.y == s.position.y
            && move_entity_spec(s, m, dt).velocity.y == 0,
        hit_x(s, m, dt) ==> move_entity_spec(s, m, dt).position.x == s.position.x
            && move_entity_spec(s, m, dt).velocity.x == 0,
        hit_z(s, m, dt) ==> move_entity_spec(s, m, dt).position.z == s.position.z
            && move_entity_spec(s, m, dt).velocity.z == 0,
{
}

/// Gravity convergence, one tick at a time: in air the vertical velocity
/// strictly decreases (until the velocity bound itself is reached), and on
/// a solid block it is clamped to be nonnegative, an upward component
/// passing through unchanged.
pub proof fn lemma_gravity_convergence(s: EntityStatus, m: GameMap, dt: int)
    requires
        s.wf(),
        1 <= dt <= 1000,
    ensures
        !m.occupied_at_coords(s.position.x as int, s.position.y as int, s.position.z as int) && (
        s.velocity.y as int) > -(VEL_LIMIT as int) ==> (gravity_spec(s, m, dt).velocity.y as int) < (
        s.velocity.y as int),
        m.occupied_at_coords(s.position.x as int, s.position.y as int, s.position.z as int)
            ==> gravity_spec(s, m, dt).velocity.y >= 0,
        m.occupied_at_coords(s.position.x as int, s.position.y as int, s.position.z as int)
            && s.velocity.y >= 0 ==> gravity_spec(s, m, dt).velocity.y == s.velocity.y,
{
    let fall = (GRAVITY as int * dt) / (UNIT as int);
    assert(9800 <= GRAVITY as int * dt <= 9_800_000) by (nonlinear_arith)
        requires
            1 <= dt <= 1000,
            GRAVITY as int == 9800,
    ;
    lemma_div_is_ordered(9800, GRAVITY as int * dt, 1000);
    lemma_div_is_ordered(GRAVITY as int * dt, 9_800_000, 1000);
    assert(9 <= fall <= 9800);
}

/// Death is final: an id that is absent from the registry is still absent
/// after any simulation tick — despawned entities are not resurrected, and
/// a tick never invents entities.
pub proof fn lemma_death_idempotence(s: Seq<EntityRecord>, m: GameMap, dt: int, id: u64)
    requires
        !has_id(s, id),
    ensures
        !has_id(live_only(s.map_values(|r: EntityRecord| tick_record(r, m, dt))), id),
{
    let mapped = s.map_values(|r: EntityRecord| tick_record(r, m, dt));
    lemma_live_only(mapped);
    if has_id(live_only(mapped), id) {
        assert(has_id(mapped, id));
        let k = choose|k: int| 0 <= k < mapped.len() && (#[trigger] mapped[k]).id == id;
        assert(s[k].id == id);
        assert(has_id(s, id));
    }
}

} // verus!
