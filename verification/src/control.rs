//! Player and NPC control: walking velocity from pressed keys (with the
//! horizontal speed cap), the attack/use dispatch gated by the player's own
//! cooldown, and the random wander of non-player entities.

use vstd::prelude::*;

verus! {

use crate::entities::EntityStatus;
use crate::fixed::div_floor;
use crate::fixed::div_trunc;
use crate::fixed::div_trunc_spec;
use crate::fixed::lemma_div_bound;
use crate::fixed::Vec3Fx;
use crate::fixed::UNIT;
use crate::fixed::VEL_LIMIT;
use crate::interaction::send_event_to_block;
use crate::interaction::send_event_to_entity;
use crate::interaction::EventQueue;
use crate::interaction::GameEntityEvent;
use crate::interaction::GameBlockEvent;
use crate::interaction::GameEventOpration;
use crate::interaction::PlayerTarget;

/// The walking speed cap, milli-units per second.
pub const MAX_VELOCITY: i64 = 4000;

/// The player's attack cooldown after a successful hit, milliseconds.
pub const PLAYER_ATTACK_CD: i64 = 500;

/// The damage one player hit deals.
pub const ATTACK_DAMAGE: i32 = 5;

/// `r` is the integer square root of `n`.
pub open spec fn is_isqrt(n: int, r: int) -> bool {
    0 <= r && r * r <= n && n < (r + 1) * (r + 1)
}

/// The integer square root (meaningful for `n >= 0`; unique by
/// `lemma_isqrt_unique`).
pub open spec fn isqrt(n: int) -> int {
    choose|r: int| is_isqrt(n, r)
}

/// Every nonnegative number has an integer square root, and `isqrt` is it.
pub proof fn lemma_isqrt_exists(n: int)
    requires
        0 <= n,
    ensures
        is_isqrt(n, isqrt(n)),
    decreases n,
{
    if n == 0 {
        assert(is_isqrt(0, 0));
    } else {
        lemma_isqrt_exists(n - 1);
        let r = isqrt(n - 1);
        if (r + 1) * (r + 1) <= n {
            assert(is_isqrt(n, r + 1)) by (nonlinear_arith)
                requires
                    is_isqrt(n - 1, r),
                    (r + 1) * (r + 1) <= n,
            ;
        } else {
            assert(is_isqrt(n, r));
        }
    }
    assert(is_isqrt(n, isqrt(n)));
}

/// The rounded-up integer square root: the smallest `r` with `n <= r * r`
/// (for `n >= 0`).
pub open spec fn isqrt_ceil(n: int) -> int {
    if isqrt(n) * isqrt(n) == n {
        isqrt(n)
    } else {
        isqrt(n) + 1
    }
}

/// The integer square root is unique.
pub proof fn lemma_isqrt_unique(n: int, a: int, b: int)
    requires
        is_isqrt(n, a),
        is_isqrt(n, b),
    ensures
        a == b,
{
    assert(a == b) by (nonlinear_arith)
        requires
            0 <= a && a * a <= n && n < (a + 1) * (a + 1),
            0 <= b && b * b <= n && n < (b + 1) * (b + 1),
    ;
}

/// Integer square root by bisection.
pub fn isqrt_u64(n: u64) -> (r: u64)
    ensures
        is_isqrt(n as int, r as int),
        r as int == isqrt(n as int),
{
    let mut lo: u64 = 0;
    let mut hi: u64 = 4294967296;
    proof {
        assert((n as int) < 4294967296int * 4294967296int) by (nonlinear_arith)
            requires
                n as int <= 0xFFFF_FFFF_FFFF_FFFFint,
        ;
    }
    while lo + 1 < hi
        invariant
            lo < hi <= 4294967296,
            (lo as int) * (lo as int) <= n as int,
            (n as int) < (hi as int) * (hi as int),
        decreases hi - lo,
    {
        let mid = lo + (hi - lo) / 2;
        proof {
            assert((mid as int) * (mid as int) < 0x1_0000_0000_0000_0000int) by (nonlinear_arith)
                requires
                    mid as int <= 4294967295int,
            ;
        }
        if mid * mid <= n {
            lo = mid;
        } else {
            hi = mid;
        }
    }
    proof {
        assert(is_isqrt(n as int, lo as int));
        lemma_isqrt_exists(n as int);
        lemma_isqrt_unique(n as int, lo as int, isqrt(n as int));
    }
    lo
}

/// The x component of the raw walking velocity: the sum of the pressed
/// direction vectors, where `forward` is the viewer's horizontal forward,
/// left is `(forward.z, -forward.x)` on the xz plane, and back and right
/// are their negations.
pub open spec fn walk_velocity_x(forward: Vec3Fx, pf: bool, pl: bool, pb: bool, pr: bool) -> int {
    (if pf {
        forward.x as int
    } else {
        0
    }) + (if pl {
        forward.z as int
    } else {
        0
    }) + (if pb {
        -(forward.x as int)
    } else {
        0
    }) + (if pr {
        -(forward.z as int)
    } else {
        0
    })
}

/// The z component of the raw walking velocity.
pub open spec fn walk_velocity_z(forward: Vec3Fx, pf: bool, pl: bool, pb: bool, pr: bool) -> int {
    (if pf {
        forward.z as int
    } else {
        0
    }) + (if pl {
        -(forward.x as int)
    } else {
        0
    }) + (if pb {
        -(forward.z as int)
    } else {
        0
    }) + (if pr {
        forward.x as int
    } else {
        0
    })
}

/// The denominator the walking velocity is scaled down by: the rounded-up
/// magnitude of the raw horizontal velocity, and at least `UNIT`, so a
/// vector already within the cap is divided by exactly one unit.
pub open spec fn walk_denom(vx0: int, vz0: int) -> int {
    let absv = isqrt_ceil(vx0 * vx0 + vz0 * vz0);
    if absv < UNIT as int {
        UNIT as int
    } else {
        absv
    }
}

/// The whole walking update: the horizontal velocity is the sum of the
/// pressed direction vectors, scaled down so its magnitude never exceeds
/// `MAX_VELOCITY`. The scale divides by the rounded-up magnitude (the
/// ceiling square root, at least `UNIT`) and rounds each component toward
/// zero; both roundings only shrink the vector, which is what makes the
/// cap provable. Jump and sink overwrite the vertical velocity with
/// `MAX_VELOCITY` up or down, sink winning.
#[verifier::opaque]
pub open spec fn walk_spec(
    s: EntityStatus,
    forward: Vec3Fx,
    pf: bool,
    pl: bool,
    pb: bool,
    pr: bool,
    pjump: bool,
    psink: bool,
) -> EntityStatus {
    let vx0 = walk_velocity_x(forward, pf, pl, pb, pr);
    let vz0 = walk_velocity_z(forward, pf, pl, pb, pr);
    let vy1 = if psink {
        -(MAX_VELOCITY as int)
    } else if pjump {
        MAX_VELOCITY as int
    } else {
        s.velocity.y as int
    };
    let denom = walk_denom(vx0, vz0);
    EntityStatus {
        velocity: Vec3Fx {
            x: div_trunc_spec(vx0 * (MAX_VELOCITY as int), denom) as i64,
            y: vy1 as i64,
            z: div_trunc_spec(vz0 * (MAX_VELOCITY as int), denom) as i64,
        },
        ..s
    }
}

/// The heart of the speed cap: if each scaled component, multiplied back by
/// the denominator, is no larger in magnitude than `MAX_VELOCITY` times the
/// raw component, and the raw vector's squared magnitude is at most the
/// squared denominator, then the scaled vector's squared magnitude is at
/// most `MAX_VELOCITY` squared.
proof fn lemma_speed_cap(ax: int, az: int, d: int, qx: int, qz: int)
    requires
        1 <= d,
        (qx * d) * (qx * d) <= (ax * 4000) * (ax * 4000),
        (qz * d) * (qz * d) <= (az * 4000) * (az * 4000),
        ax * ax + az * az <= d * d,
    ensures
        qx * qx + qz * qz <= 16_000_000,
{
    assert((qx * qx + qz * qz) * (d * d) <= 16_000_000 * (d * d)) by (nonlinear_arith)
        requires
            (qx * d) * (qx * d) <= (ax * 4000) * (ax * 4000),
            (qz * d) * (qz * d) <= (az * 4000) * (az * 4000),
            ax * ax + az * az <= d * d,
    ;
    assert(qx * qx + qz * qz <= 16_000_000) by (nonlinear_arith)
        requires
            (qx * qx + qz * qz) * (d * d) <= 16_000_000 * (d * d),
            1 <= d,
    ;
}

/// Scale a raw horizontal velocity down to the walking cap: divide each
/// component by the rounded-up magnitude (at least `UNIT`), rounding
/// toward zero, so the result's squared magnitude never exceeds
/// `MAX_VELOCITY` squared.
fn scale_velocity(vx: i64, vz: i64) -> (r: (i64, i64))
    requires
        -4000 <= vx <= 4000,
        -4000 <= vz <= 4000,
    ensures
        r.0 as int == div_trunc_spec(
            vx as int * (MAX_VELOCITY as int),
            walk_denom(vx as int, vz as int),
        ),
        r.1 as int == div_trunc_spec(
            vz as int * (MAX_VELOCITY as int),
            walk_denom(vx as int, vz as int),
        ),
        (r.0 as int) * (r.0 as int) + (r.1 as int) * (r.1 as int) <= 16_000_000,
        -4000 <= r.0 as int <= 4000,
        -4000 <= r.1 as int <= 4000,
{
    proof {
        assert(0 <= vx as int * vx as int <= 16_000_000) by (nonlinear_arith)
            requires
                -4000 <= vx as int <= 4000,
        ;
        assert(0 <= vz as int * vz as int <= 16_000_000) by (nonlinear_arith)
            requires
                -4000 <= vz as int <= 4000,
        ;
        assert(-16_000_000 <= vx as int * (MAX_VELOCITY as int) <= 16_000_000) by (nonlinear_arith)
            requires
                -4000 <= vx as int <= 4000,
                MAX_VELOCITY as int == 4000,
        ;
        assert(-16_000_000 <= vz as int * (MAX_VELOCITY as int) <= 16_000_000) by (nonlinear_arith)
            requires
                -4000 <= vz as int <= 4000,
                MAX_VELOCITY as int == 4000,
        ;
    }
    let sq = (vx * vx + vz * vz) as u64;
    let root = isqrt_u64(sq);
    proof {
        assert(root as int <= 5657) by (nonlinear_arith)
            requires
                is_isqrt(sq as int, root as int),
                sq as int <= 32_000_000,
        ;
        assert((root as int) * (root as int) <= 5657 * 5657) by (nonlinear_arith)
            requires
                0 <= root as int,
                root as int <= 5657,
        ;
    }
    let absv = if root * root == sq {
        root as i64
    } else {
        root as i64 + 1
    };
    proof {
        assert(absv as int == isqrt_ceil(sq as int));
        assert(sq as int <= (absv as int) * (absv as int)) by (nonlinear_arith)
            requires
                (root as int) * (root as int) <= sq as int,
                (sq as int) < ((root as int) + 1) * ((root as int) + 1),
                absv as int == root as int || absv as int == root as int + 1,
                absv as int == root as int ==> (root as int) * (root as int) == sq as int,
        ;
    }
    let denom = if absv < UNIT {
        UNIT
    } else {
        absv
    };
    proof {
        assert(sq as int <= (denom as int) * (denom as int)) by (nonlinear_arith)
            requires
                sq as int <= (absv as int) * (absv as int),
                0 <= absv as int,
                denom as int == if (absv as int) < 1000 {
                    1000int
                } else {
                    absv as int
                },
        ;
        assert(denom as int == walk_denom(vx as int, vz as int));
    }
    let sx = div_trunc(vx * MAX_VELOCITY, denom);
    let sz = div_trunc(vz * MAX_VELOCITY, denom);
    proof {
        lemma_speed_cap(vx as int, vz as int, denom as int, sx as int, sz as int);
        assert(-4000 <= sx as int <= 4000 && -4000 <= sz as int <= 4000) by (nonlinear_arith)
            requires
                (sx as int) * (sx as int) + (sz as int) * (sz as int) <= 16_000_000,
        ;
    }
    (sx, sz)
}

/// Set the walking velocity of the main player from the pressed keys: the
/// sum of the pressed horizontal direction vectors, capped in magnitude at
/// `MAX_VELOCITY` (the squared horizontal speed provably never exceeds the
/// squared cap), and a vertical override for jumping or sinking.
#[verifier::rlimit(100)]
pub fn walk(
    status: &mut EntityStatus,
    forward: Vec3Fx,
    press_forward: bool,
    press_left: bool,
    press_back: bool,
    press_right: bool,
    press_jump: bool,
    press_sink: bool,
)
    requires
        old(status).wf(),
        forward.bounded(UNIT as int),
    ensures
        *final(status) == walk_spec(
            *old(status),
            forward,
            press_forward,
            press_left,
            press_back,
            press_right,
            press_jump,
            press_sink,
        ),
        final(status).wf(),
        (final(status).velocity.x as int) * (final(status).velocity.x as int) + (final(
            status
        ).velocity.z as int) * (final(status).velocity.z as int) <= (MAX_VELOCITY as int) * (
        MAX_VELOCITY as int),
{
    let mut vx: i64 = 0;
    let mut vz: i64 = 0;
    if press_forward {
        vx = vx + forward.x;
        vz = vz + forward.z;
    }
    if press_left {
        vx = vx + forward.z;
        vz = vz - forward.x;
    }
    if press_back {
        vx = vx - forward.x;
        vz = vz - forward.z;
    }
    if press_right {
        vx = vx - forward.z;
        vz = vz + forward.x;
    }
    if press_jump {
        status.velocity.y = MAX_VELOCITY;
    }
    if press_sink {
        status.velocity.y = -MAX_VELOCITY;
    }
    proof {
        assert(vx as int == walk_velocity_x(forward, press_forward, press_left, press_back, press_right));
        assert(vz as int == walk_velocity_z(forward, press_forward, press_left, press_back, press_right));
    }
    let scaled = scale_velocity(vx, vz);
    status.velocity.x = scaled.0;
    status.velocity.z = scaled.1;
    proof {
        reveal(walk_spec);
        assert(*status == walk_spec(
            *old(status),
            forward,
            press_forward,
            press_left,
            press_back,
            press_right,
            press_jump,
            press_sink,
        ));
    }
}

/// Dispatch the player's click intents against the current target. An
/// attack on an entity is honored only while the player's own cooldown is
/// spent (`attack_cd <= 0`), and honoring it resets the cooldown; use
/// intents and block intents are not gated. A left click outranks a
/// simultaneous right click, and an entity target outranks a block target.
pub fn operate(
    player: &mut EntityStatus,
    target: &PlayerTarget,
    left_click: bool,
    right_click: bool,
    queue: &mut EventQueue,
)
    requires
        old(player).wf(),
        target.wf(),
        old(queue).wf(),
    ensures
        final(player).wf(),
        final(queue).wf(),
        match target.entity_id {
            Some(id) => {
                &&& final(queue).block_events == old(queue).block_events
                &&& (left_click && old(player).attack_cd <= 0 ==> final(queue).entity_events@
                    == old(queue).entity_events@.push(
                    GameEntityEvent { target: id, operation: GameEventOpration::HIT(ATTACK_DAMAGE) },
                ) && *final(player) == (EntityStatus { attack_cd: PLAYER_ATTACK_CD, ..*old(player) }))
                &&& (left_click && old(player).attack_cd > 0 ==> final(queue).entity_events == old(
                    queue,
                ).entity_events && *final(player) == *old(player))
                &&& (!left_click && right_click ==> final(queue).entity_events@ == old(
                    queue,
                ).entity_events@.push(
                    GameEntityEvent { target: id, operation: GameEventOpration::USE },
                ) && *final(player) == *old(player))
                &&& (!left_click && !right_click ==> final(queue).entity_events == old(
                    queue,
                ).entity_events && *final(player) == *old(player))
            },
            None => {
                &&& *final(player) == *old(player)
                &&& final(queue).entity_events == old(queue).entity_events
                &&& match target.block {
                    Some(pos) => {
                        &&& (left_click ==> final(queue).block_events@ == old(
                            queue,
                        ).block_events@.push(
                            GameBlockEvent {
                                target_position: pos,
                                operation: GameEventOpration::HIT(0),
                            },
                        ))
                        &&& (!left_click && right_click ==> final(queue).block_events@ == old(
                            queue,
                        ).block_events@.push(
                            GameBlockEvent { target_position: pos, operation: GameEventOpration::USE },
                        ))
                        &&& (!left_click && !right_click ==> final(queue).block_events == old(
                            queue,
                        ).block_events)
                    },
                    None => final(queue).block_events == old(queue).block_events,
                }
            },
        },
{
    match target.entity_id {
        Some(id) => {
            if left_click {
                if player.attack_cd <= 0 {
                    send_event_to_entity(queue, id, GameEventOpration::HIT(ATTACK_DAMAGE));
                    player.attack_cd = PLAYER_ATTACK_CD;
                }
            } else if right_click {
                send_event_to_entity(queue, id, GameEventOpration::USE);
            }
        },
        None => {
            match target.block {
                Some(pos) => {
                    if left_click {
                        send_event_to_block(queue, pos, GameEventOpration::HIT(0));
                    } else if right_click {
                        send_event_to_block(queue, pos, GameEventOpration::USE);
                    }
                },
                None => {},
            }
        },
    }
}

/// One u32 in roughly twenty falls under this bound: the chance per frame
/// that a wandering entity changes what it is doing.
pub const WANDER_ACT_ROLL: u32 = 214748365;

/// Half the u32 range: given a change, the chance that the entity stops
/// rather than turns.
pub const WANDER_STOP_ROLL: u32 = 2147483648;

/// What one wander decision does: nothing unless the act roll falls under
/// the act bound; then either the horizontal velocity is zeroed (stop
/// roll under the stop bound) or the entity turns to the given yaw and
/// walks along `dir` with the given speed (milli-units per second, scaled
/// by `dir / UNIT` per axis with Euclidean flooring).
pub open spec fn wander_spec(
    s: EntityStatus,
    dir: Vec3Fx,
    speed: int,
    yaw: i64,
    act: u32,
    stop: u32,
) -> EntityStatus {
    if act < WANDER_ACT_ROLL {
        if stop < WANDER_STOP_ROLL {
            EntityStatus { velocity: Vec3Fx { x: 0, z: 0, ..s.velocity }, ..s }
        } else {
            EntityStatus {
                rotation: yaw,
                velocity: Vec3Fx {
                    x: ((dir.x as int * speed) / (UNIT as int)) as i64,
                    z: ((dir.z as int * speed) / (UNIT as int)) as i64,
                    ..s.velocity
                },
                ..s
            }
        }
    } else {
        s
    }
}

/// Apply one wander decision with everything already drawn.
pub fn wander_step(
    status: &mut EntityStatus,
    dir: Vec3Fx,
    speed: i64,
    yaw: i64,
    act: u32,
    stop: u32,
)
    requires
        old(status).wf(),
        dir.bounded(UNIT as int),
        0 <= speed < 5000,
    ensures
        *final(status) == wander_spec(*old(status), dir, speed as int, yaw, act, stop),
        final(status).wf(),
{
    if act < WANDER_ACT_ROLL {
        if stop < WANDER_STOP_ROLL {
            status.velocity.x = 0;
            status.velocity.z = 0;
        } else {
            proof {
                assert(-5_000_000 <= dir.x as int * speed as int <= 5_000_000) by (nonlinear_arith)
                    requires
                        -1000 <= dir.x as int <= 1000,
                        0 <= speed as int && (speed as int) < 5000,
                ;
                assert(-5_000_000 <= dir.z as int * speed as int <= 5_000_000) by (nonlinear_arith)
                    requires
                        -1000 <= dir.z as int <= 1000,
                        0 <= speed as int && (speed as int) < 5000,
                ;
                lemma_div_bound(dir.x as int * speed as int, UNIT as int, 5000);
                lemma_div_bound(dir.z as int * speed as int, UNIT as int, 5000);
            }
            status.rotation = yaw;
            status.velocity.x = div_floor(dir.x * speed, UNIT);
            status.velocity.z = div_floor(dir.z * speed, UNIT);
        }
    }
}

/// Relies on rand::random: draws one value of the standard distribution
/// from the thread-local generator; nothing can be promised of the value.
pub assume_specification<T>[ rand::random::<T> ]() -> (r: T)
    where
        rand::distributions::Standard: rand::distributions::Distribution<T>;

/// The random wander of a non-player entity: with a small chance per frame
/// the entity either stops or turns to the given yaw and walks along `dir`
/// at a speed below five units per second. Which of these happens depends
/// on freshly drawn random values; whatever was drawn, the outcome is one
/// wander decision over the inputs.
pub fn random_move(status: &mut EntityStatus, dir: Vec3Fx, yaw: i64)
    requires
        old(status).wf(),
        dir.bounded(UNIT as int),
    ensures
        final(status).wf(),
        exists|act: u32, stop: u32, speed: int|
            0 <= speed < 5000 && *final(status) == wander_spec(
                *old(status),
                dir,
                speed,
                yaw,
                act,
                stop,
            ),
{
    let act: u32 = rand::random();
    let stop: u32 = rand::random();
    let roll: u32 = rand::random();
    let speed = (roll % 5000) as i64;
    wander_step(status, dir, speed, yaw, act, stop);
    proof {
        assert(*status == wander_spec(*old(status), dir, speed as int, yaw, act, stop));
    }
}

} // verus!
