//! Target resolution: sample points along the viewer's forward ray, nearest
//! first, and pick the nearest interactable entity or block. At each sample
//! the entities are tested before the block, so an entity found at the same
//! sample index as the first solid block wins the tie.

use vstd::prelude::*;

verus! {

use crate::entities::entity_contains_point;
use crate::entities::get_collision_box_by_type;
use crate::entities::collide_with;
use crate::entities::EntityRecord;
use crate::entities::EntityRegistry;
use crate::entities::EntityType;
use crate::fixed::div_floor;
use crate::fixed::Vec3Fx;
use crate::fixed::POS_LIMIT;
use crate::fixed::UNIT;
use crate::gamemap::GameMap;
use crate::interaction::PlayerTarget;

/// Number of samples along the sight line.
pub const TARGET_SAMPLES: usize = 51;

/// Distance between two samples, milli-units (a tenth of a block).
pub const TARGET_STEP: i64 = 100;

/// The sample point at index `k`: the viewer's position plus the forward
/// vector scaled by `k` tenths of a unit, floored per axis.
pub open spec fn sample_point(center: Vec3Fx, forward: Vec3Fx, k: int) -> Vec3Fx {
    Vec3Fx {
        x: (center.x as int + (forward.x as int * k * (TARGET_STEP as int)) / (UNIT as int)) as i64,
        y: (center.y as int + (forward.y as int * k * (TARGET_STEP as int)) / (UNIT as int)) as i64,
        z: (center.z as int + (forward.z as int * k * (TARGET_STEP as int)) / (UNIT as int)) as i64,
    }
}

/// Whether the record at slot `i` is a target candidate containing `p`:
/// every entity but the viewer itself counts.
pub open spec fn record_hit(rs: Seq<EntityRecord>, i: int, p: Vec3Fx) -> bool {
    rs[i].status.entity_type != EntityType::MainPlayer && entity_contains_point(
        rs[i].status.entity_type,
        rs[i].status.position,
        p,
    )
}

/// The first registry slot whose entity contains `p`, scanning from `i`.
pub open spec fn first_record_hit_from(rs: Seq<EntityRecord>, p: Vec3Fx, i: int) -> Option<int>
    decreases rs.len() - i,
{
    if i < 0 || i >= rs.len() {
        None
    } else if record_hit(rs, i, p) {
        Some(i)
    } else {
        first_record_hit_from(rs, p, i + 1)
    }
}

/// The first sample index (from `k`) at which some entity contains the
/// sample point, with the slot of the first such entity.
pub open spec fn first_entity_target_from(
    rs: Seq<EntityRecord>,
    center: Vec3Fx,
    forward: Vec3Fx,
    k: int,
) -> Option<(int, int)>
    decreases TARGET_SAMPLES as int - k,
{
    if k < 0 || k >= TARGET_SAMPLES as int {
        None
    } else {
        match first_record_hit_from(rs, sample_point(center, forward, k), 0) {
            Some(i) => Some((k, i)),
            None => first_entity_target_from(rs, center, forward, k + 1),
        }
    }
}

/// Whether the block at the sample point is a non-air block (every
/// nonnegative id is a material and can be targeted).
pub open spec fn block_hit(m: GameMap, p: Vec3Fx) -> bool {
    match m.spec_block_at_pos(p) {
        Some(id) => id >= 0,
        None => false,
    }
}

/// The first sample index (from `k`) whose sample point stands in a solid
/// block.
pub open spec fn first_block_target_from(m: GameMap, center: Vec3Fx, forward: Vec3Fx, k: int) -> Option<
    int,
>
    decreases TARGET_SAMPLES as int - k,
{
    if k < 0 || k >= TARGET_SAMPLES as int {
        None
    } else if block_hit(m, sample_point(center, forward, k)) {
        Some(k)
    } else {
        first_block_target_from(m, center, forward, k + 1)
    }
}

/// The resolved target: the nearest entity hit if it is at least as near
/// as the first solid block (an entity wins a tie), else the block, else
/// nothing.
pub open spec fn resolve_target_spec(
    rs: Seq<EntityRecord>,
    m: GameMap,
    center: Vec3Fx,
    forward: Vec3Fx,
) -> PlayerTarget {
    let e = first_entity_target_from(rs, center, forward, 0);
    let b = first_block_target_from(m, center, forward, 0);
    match e {
        Some((ke, ie)) => match b {
            Some(kb) => if ke <= kb {
                PlayerTarget { entity_id: Some(rs[ie].id), block: None }
            } else {
                PlayerTarget { entity_id: None, block: Some(sample_point(center, forward, kb)) }
            },
            None => PlayerTarget { entity_id: Some(rs[ie].id), block: None },
        },
        None => match b {
            Some(kb) => PlayerTarget {
                entity_id: None,
                block: Some(sample_point(center, forward, kb)),
            },
            None => PlayerTarget { entity_id: None, block: None },
        },
    }
}

/// Compute the sample point at index `k`.
fn sample_point_at(center: Vec3Fx, forward: Vec3Fx, k: usize) -> (r: Vec3Fx)
    requires
        center.bounded(POS_LIMIT as int),
        forward.bounded(UNIT as int),
        k < TARGET_SAMPLES,
    ensures
        r == sample_point(center, forward, k as int),
        r.x > i64::MIN,
        r.y > i64::MIN,
        r.z > i64::MIN,
{
    let kk = k as i64;
    proof {
        assert(-5_100_000 <= forward.x as int * (kk as int) * (TARGET_STEP as int) <= 5_100_000)
            by (nonlinear_arith)
            requires
                -1000 <= forward.x as int <= 1000,
                0 <= kk as int <= 50,
                TARGET_STEP as int == 100,
        ;
        assert(-5_100_000 <= forward.y as int * (kk as int) * (TARGET_STEP as int) <= 5_100_000)
            by (nonlinear_arith)
            requires
                -1000 <= forward.y as int <= 1000,
                0 <= kk as int <= 50,
                TARGET_STEP as int == 100,
        ;
        assert(-5_100_000 <= forward.z as int * (kk as int) * (TARGET_STEP as int) <= 5_100_000)
            by (nonlinear_arith)
            requires
                -1000 <= forward.z as int <= 1000,
                0 <= kk as int <= 50,
                TARGET_STEP as int == 100,
        ;
    }
    let dx = div_floor(forward.x * kk * TARGET_STEP, UNIT);
    let dy = div_floor(forward.y * kk * TARGET_STEP, UNIT);
    let dz = div_floor(forward.z * kk * TARGET_STEP, UNIT);
    proof {
        assert(-5101 <= dx as int <= 5100 && -5101 <= dy as int <= 5100 && -5101 <= dz as int
            <= 5100);
    }
    Vec3Fx { x: center.x + dx, y: center.y + dy, z: center.z + dz }
}

/// Whether any candidate entity contains `p`; answers the slot of the
/// first one.
fn find_containing_entity(reg: &EntityRegistry, p: Vec3Fx) -> (r: Option<usize>)
    requires
        reg.wf(),
    ensures
        match r {
            Some(i) => i < reg.entities@.len() && first_record_hit_from(reg.entities@, p, 0)
                == Some(i as int),
            None => first_record_hit_from(reg.entities@, p, 0) is None,
        },
{
    let n = reg.entities.len();
    let mut i: usize = 0;
    while i < n
        invariant
            reg.wf(),
            n == reg.entities@.len(),
            i <= n,
            forall|j: int| 0 <= j < i ==> !record_hit(reg.entities@, j, p),
            first_record_hit_from(reg.entities@, p, 0) == first_record_hit_from(
                reg.entities@,
                p,
                i as int,
            ),
        decreases n - i,
    {
        let st = reg.entities[i].status;
        let not_viewer = match st.entity_type {
            EntityType::MainPlayer => false,
            _ => true,
        };
        if not_viewer {
            let aabb = get_collision_box_by_type(st.entity_type);
            let bmin = Vec3Fx {
                x: st.position.x + aabb.min.x,
                y: st.position.y + aabb.min.y,
                z: st.position.z + aabb.min.z,
            };
            let bmax = Vec3Fx {
                x: st.position.x + aabb.max.x,
                y: st.position.y + aabb.max.y,
                z: st.position.z + aabb.max.z,
            };
            if collide_with(bmin, bmax, p, p) {
                return Some(i);
            }
        }
        i = i + 1;
    }
    None
}

/// A found entity target lies at or after the sample the scan started at,
/// and its slot is a real one.
pub proof fn lemma_first_entity_bounds(rs: Seq<EntityRecord>, center: Vec3Fx, forward: Vec3Fx, k: int)
    ensures
        match first_entity_target_from(rs, center, forward, k) {
            Some((ke, ie)) => k <= ke < TARGET_SAMPLES as int && 0 <= ie < rs.len(),
            None => true,
        },
    decreases TARGET_SAMPLES as int - k,
{
    if k < 0 || k >= TARGET_SAMPLES as int {
    } else {
        match first_record_hit_from(rs, sample_point(center, forward, k), 0) {
            Some(i) => {
                lemma_first_record_bounds(rs, sample_point(center, forward, k), 0);
            },
            None => {
                lemma_first_entity_bounds(rs, center, forward, k + 1);
            },
        }
    }
}

/// A found record hit is a real slot at or after the start of the scan.
pub proof fn lemma_first_record_bounds(rs: Seq<EntityRecord>, p: Vec3Fx, i: int)
    ensures
        match first_record_hit_from(rs, p, i) {
            Some(j) => i <= j < rs.len(),
            None => true,
        },
    decreases rs.len() - i,
{
    if i < 0 || i >= rs.len() {
    } else if record_hit(rs, i, p) {
    } else {
        lemma_first_record_bounds(rs, p, i + 1);
    }
}

/// Resolve the player's current target: scan the samples along the sight
/// line nearest first; at each sample test the entities (in registry
/// order), then the block; keep the nearest entity if it is at least as
/// near as the first solid block, else that block. The result holds at
/// most one of the two.
pub fn player_find_target(
    reg: &EntityRegistry,
    map: &GameMap,
    center: Vec3Fx,
    forward: Vec3Fx,
) -> (r: PlayerTarget)
    requires
        reg.wf(),
        map.wf(),
        center.bounded(POS_LIMIT as int),
        forward.bounded(UNIT as int),
    ensures
        r == resolve_target_spec(reg.entities@, *map, center, forward),
        r.wf(),
{
    let mut entity_hit: Option<(usize, usize)> = None;
    let mut block_hit_at: Option<usize> = None;
    let mut k: usize = 0;
    while k < TARGET_SAMPLES && block_hit_at.is_none()
        invariant
            reg.wf(),
            map.wf(),
            center.bounded(POS_LIMIT as int),
            forward.bounded(UNIT as int),
            k <= TARGET_SAMPLES,
            match entity_hit {
                Some((ke, ie)) => first_entity_target_from(reg.entities@, center, forward, 0)
                    == Some((ke as int, ie as int)) && ie < reg.entities@.len() && ke < k,
                None => first_entity_target_from(reg.entities@, center, forward, 0)
                    == first_entity_target_from(reg.entities@, center, forward, k as int),
            },
            match block_hit_at {
                Some(kb) => first_block_target_from(*map, center, forward, 0) == Some(kb as int)
                    && k == kb + 1,
                None => first_block_target_from(*map, center, forward, 0)
                    == first_block_target_from(*map, center, forward, k as int),
            },
        decreases TARGET_SAMPLES - k,
    {
        let p = sample_point_at(center, forward, k);
        if entity_hit.is_none() {
            match find_containing_entity(reg, p) {
                Some(i) => {
                    entity_hit = Some((k, i));
                },
                None => {},
            }
        }
        let id = map.query_block_by_xyz(p);
        let is_solid = match id {
            Some(v) => v >= 0,
            None => false,
        };
        if is_solid {
            block_hit_at = Some(k);
        }
        k = k + 1;
    }
    proof {
        if block_hit_at is None {
            assert(k == TARGET_SAMPLES);
            assert(first_block_target_from(*map, center, forward, TARGET_SAMPLES as int) is None);
        }
        if entity_hit is None {
            match block_hit_at {
                Some(kb) => {
                    lemma_first_entity_bounds(reg.entities@, center, forward, k as int);
                },
                None => {
                    assert(first_entity_target_from(
                        reg.entities@,
                        center,
                        forward,
                        TARGET_SAMPLES as int,
                    ) is None);
                },
            }
        }
    }
    match entity_hit {
        Some((ke, ie)) => {
            match block_hit_at {
                Some(kb) => {
                    if ke <= kb {
                        PlayerTarget { entity_id: Some(reg.entities[ie].id), block: None }
                    } else {
                        let pb = sample_point_at(center, forward, kb);
                        PlayerTarget { entity_id: None, block: Some(pb) }
                    }
                },
                None => PlayerTarget { entity_id: Some(reg.entities[ie].id), block: None },
            }
        },
        None => {
            match block_hit_at {
                Some(kb) => {
                    let pb = sample_point_at(center, forward, kb);
                    PlayerTarget { entity_id: None, block: Some(pb) }
                },
                None => PlayerTarget { entity_id: None, block: None },
            }
        },
    }
}

} // verus!
