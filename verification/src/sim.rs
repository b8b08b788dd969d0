//! The per-tick simulation: motion integration, the input-driven paddle
//! controller and the collision resolver, composed into one tick.

use vstd::prelude::*;

use crate::fixed::{div_nn, scale_by_dt, scaled};
use crate::geometry::{collide, collide_spec, vec3_in_range, Collision, Vec3, MAX_COORD};
use crate::layout::{lemma_paddle_bounds, paddle_high_bound, paddle_low_bound, LayoutConfig};
use crate::world::{
    ball_of, kind_count, kind_index, lemma_kind_count_exists, lemma_kind_count_pointwise,
    lemma_kind_count_unique, wf_seq, CollisionEvent, Entity, EntityKind, Scoreboard, World,
    MAX_DT_NUM, MAX_VEL,
};

verus! {

// ---------------------------------------------------------------------------
// Motion integration
// ---------------------------------------------------------------------------
/// Where an entity carrying a velocity ends up after one timestep:
/// `position + velocity * dt`, component-wise.
pub open spec fn moved_position(e: Entity, num: int, den: int) -> Vec3 {
    Vec3 {
        x: (e.position.x + scaled(e.velocity.x as int, num, den)) as i64,
        y: (e.position.y + scaled(e.velocity.y as int, num, den)) as i64,
        z: (e.position.z + scaled(e.velocity.z as int, num, den)) as i64,
    }
}

/// One entity after one timestep: only entities carrying a velocity move.
pub open spec fn moved_entity(e: Entity, num: int, den: int) -> Entity {
    if e.has_velocity {
        Entity { position: moved_position(e, num, den), ..e }
    } else {
        e
    }
}

/// The whole world after one timestep of motion.
pub open spec fn integrated(s: Seq<Entity>, num: int, den: int) -> Seq<Entity> {
    s.map_values(|e: Entity| moved_entity(e, num, den))
}

/// Every moving entity stays on the bounded coordinate grid over this
/// timestep. Integration requires it; `motion_in_bounds` checks it.
pub open spec fn motion_bounded(s: Seq<Entity>, num: int, den: int) -> bool {
    forall|i: int|
        0 <= i < s.len() ==> vec3_in_range(
            moved_entity(#[trigger] s[i], num, den).position,
            MAX_COORD as int,
        )
}

/// Integrating with a velocity of zero on every component leaves the
/// position unchanged, whatever the timestep.
pub proof fn lemma_zero_velocity_keeps_position(e: Entity, num: int, den: int)
    requires
        num >= 0,
        den > 0,
        e.velocity == (Vec3 { x: 0, y: 0, z: 0 }),
    ensures
        moved_entity(e, num, den).position == e.position,
        moved_entity(e, num, den) == e,
{
    assert(0 * num == 0) by (nonlinear_arith);
    assert(scaled(0, num, den) == 0) by {
        assert(0int / den == 0) by (nonlinear_arith)
            requires
                den > 0,
        ;
    }
}

/// Advances every entity carrying a velocity by `velocity * dt_num /
/// dt_den`, leaving all other entities untouched.
pub fn apply_velocity(world: &mut World, dt_num: i64, dt_den: i64)
    requires
        wf_seq(old(world).entities@),
        0 <= dt_num <= MAX_DT_NUM,
        0 < dt_den,
        motion_bounded(old(world).entities@, dt_num as int, dt_den as int),
    ensures
        final(world).entities@ == integrated(old(world).entities@, dt_num as int, dt_den as int),
        wf_seq(final(world).entities@),
{
    let ghost s0 = world.entities@;
    let n = world.entities.len();
    let mut i: usize = 0;
    while i < n
        invariant
            i <= n,
            n == world.entities@.len(),
            n == s0.len(),
            wf_seq(s0),
            0 <= dt_num <= MAX_DT_NUM,
            0 < dt_den,
            motion_bounded(s0, dt_num as int, dt_den as int),
            forall|j: int|
                0 <= j < i ==> world.entities@[j] == moved_entity(
                    s0[j],
                    dt_num as int,
                    dt_den as int,
                ),
            forall|j: int| i <= j < n ==> world.entities@[j] == s0[j],
        decreases n - i,
    {
        let e = world.entities[i];
        if e.has_velocity {
            let dx = scale_by_dt(e.velocity.x, dt_num, dt_den);
            let dy = scale_by_dt(e.velocity.y, dt_num, dt_den);
            let dz = scale_by_dt(e.velocity.z, dt_num, dt_den);
            assert(vec3_in_range(
                moved_entity(s0[i as int], dt_num as int, dt_den as int).position,
                MAX_COORD as int,
            ));
            let moved = Entity {
                position: Vec3 {
                    x: e.position.x + dx,
                    y: e.position.y + dy,
                    z: e.position.z + dz,
                },
                ..e
            };
            world.entities.set(i, moved);
        }
        i += 1;
    }
    proof {
        let s1 = world.entities@;
        let num = dt_num as int;
        let den = dt_den as int;
        assert(s1 =~= integrated(s0, num, den));
        assert forall|j: int| 0 <= j < s1.len() implies (#[trigger] s1[j]).wf() by {
            assert(s0[j].wf());
        }
        lemma_kind_count_pointwise(s1, s0, EntityKind::Ball);
        lemma_kind_count_pointwise(s1, s0, EntityKind::Paddle);
    }
}

/// Checks that one timestep of motion keeps every moving entity on the
/// bounded coordinate grid, so that the integrator may be called.
pub fn motion_in_bounds(world: &World, dt_num: i64, dt_den: i64) -> (r: bool)
    requires
        wf_seq(world.entities@),
        0 <= dt_num <= MAX_DT_NUM,
        0 < dt_den,
    ensures
        r == motion_bounded(world.entities@, dt_num as int, dt_den as int),
{
    let ghost s = world.entities@;
    let n = world.entities.len();
    let mut i: usize = 0;
    while i < n
        invariant
            i <= n,
            n == s.len(),
            s == world.entities@,
            wf_seq(s),
            0 <= dt_num <= MAX_DT_NUM,
            0 < dt_den,
            forall|j: int|
                0 <= j < i ==> vec3_in_range(
                    moved_entity(#[trigger] s[j], dt_num as int, dt_den as int).position,
                    MAX_COORD as int,
                ),
        decreases n - i,
    {
        let e = world.entities[i];
        if e.has_velocity {
            let dx = scale_by_dt(e.velocity.x, dt_num, dt_den);
            let dy = scale_by_dt(e.velocity.y, dt_num, dt_den);
            let dz = scale_by_dt(e.velocity.z, dt_num, dt_den);
            assert(e.wf());
            if e.position.x + dx < -MAX_COORD || e.position.x + dx > MAX_COORD || e.position.y + dy
                < -MAX_COORD || e.position.y + dy > MAX_COORD || e.position.z + dz < -MAX_COORD
                || e.position.z + dz > MAX_COORD {
                return false;
            }
        }
        i += 1;
    }
    true
}

// ---------------------------------------------------------------------------
// Reflection
// ---------------------------------------------------------------------------
/// The reflection policy: a velocity component is negated only where it
/// moves *into* the struck surface, so a ball already receding from the
/// surface is never reflected back at it. `Inside` changes nothing.
pub open spec fn reflect(v: Vec3, side: Collision) -> Vec3 {
    match side {
        Collision::Left => if v.x > 0 {
            Vec3 { x: (-v.x) as i64, ..v }
        } else {
            v
        },
        Collision::Right => if v.x < 0 {
            Vec3 { x: (-v.x) as i64, ..v }
        } else {
            v
        },
        Collision::Top => if v.y < 0 {
            Vec3 { y: (-v.y) as i64, ..v }
        } else {
            v
        },
        Collision::Bottom => if v.y > 0 {
            Vec3 { y: (-v.y) as i64, ..v }
        } else {
            v
        },
        Collision::Inside => v,
    }
}

/// Reflecting off a side is idempotent: after one reflection the velocity
/// recedes from that side, and striking the same side again changes
/// nothing.
pub proof fn lemma_reflect_idempotent(v: Vec3, side: Collision)
    requires
        vec3_in_range(v, MAX_VEL as int),
    ensures
        reflect(reflect(v, side), side) == reflect(v, side),
{
}

/// Reflection only ever negates a component, so it keeps every component's
/// magnitude.
pub proof fn lemma_reflect_in_range(v: Vec3, side: Collision, bound: int)
    requires
        vec3_in_range(v, bound),
    ensures
        vec3_in_range(reflect(v, side), bound),
{
}

/// Applies the reflection policy to a velocity.
pub fn reflect_velocity(v: Vec3, side: Collision) -> (r: Vec3)
    requires
        vec3_in_range(v, MAX_VEL as int),
    ensures
        r == reflect(v, side),
{
    match side {
        Collision::Left => if v.x > 0 {
            Vec3 { x: -v.x, ..v }
        } else {
            v
        },
        Collision::Right => if v.x < 0 {
            Vec3 { x: -v.x, ..v }
        } else {
            v
        },
        Collision::Top => if v.y < 0 {
            Vec3 { y: -v.y, ..v }
        } else {
            v
        },
        Collision::Bottom => if v.y > 0 {
            Vec3 { y: -v.y, ..v }
        } else {
            v
        },
        Collision::Inside => v,
    }
}


// ---------------------------------------------------------------------------
// Collision resolution
// ---------------------------------------------------------------------------
/// The side on which the ball strikes entity `e`, or `None` where `e` is no
/// collision target or the two boxes do not overlap.
pub open spec fn hit_side(ball: Entity, e: Entity) -> Option<Collision> {
    if e.collider {
        collide_spec(
            ball.position.spec_truncate(),
            ball.size.spec_truncate(),
            e.position.spec_truncate(),
            e.size.spec_truncate(),
        )
    } else {
        None
    }
}

/// The ball collides with `e` this tick.
pub open spec fn hits(ball: Entity, e: Entity) -> bool {
    hit_side(ball, e) is Some
}

/// The collision with `e` destroys it: only bricks are removed.
pub open spec fn destroyed(ball: Entity, e: Entity) -> bool {
    hits(ball, e) && e.kind == EntityKind::Brick
}

/// The ball's velocity after its collisions with every entity of `s`, in
/// order, have been reflected, starting from `v`.
pub open spec fn vel_after(ball: Entity, s: Seq<Entity>, v: Vec3) -> Vec3
    decreases s.len(),
{
    if s.len() == 0 {
        v
    } else {
        let w = vel_after(ball, s.drop_last(), v);
        match hit_side(ball, s.last()) {
            Some(side) => reflect(w, side),
            None => w,
        }
    }
}

/// How many entities of `s` the ball collides with this tick: one
/// collision event is emitted for each.
pub open spec fn hit_count(ball: Entity, s: Seq<Entity>) -> nat
    decreases s.len(),
{
    if s.len() == 0 {
        0
    } else {
        hit_count(ball, s.drop_last()) + if hits(ball, s.last()) {
            1nat
        } else {
            0nat
        }
    }
}

/// The ball strikes a nameable side of `e`: a detected overlap that is not
/// the degenerate `Inside` case. Exactly these emit a collision event.
pub open spec fn side_struck(ball: Entity, e: Entity) -> bool {
    match hit_side(ball, e) {
        Some(c) => c != Collision::Inside,
        None => false,
    }
}

/// How many collision events one resolver run emits: one per struck side.
/// An entity the ball is fully embedded in counts as a detected collision
/// but names no side and emits no event.
pub open spec fn event_count(ball: Entity, s: Seq<Entity>) -> nat
    decreases s.len(),
{
    if s.len() == 0 {
        0
    } else {
        event_count(ball, s.drop_last()) + if side_struck(ball, s.last()) {
            1nat
        } else {
            0nat
        }
    }
}

/// How many entities of `s` this tick's collisions destroy: the score
/// grows by one for each.
pub open spec fn destroyed_count(ball: Entity, s: Seq<Entity>) -> nat
    decreases s.len(),
{
    if s.len() == 0 {
        0
    } else {
        destroyed_count(ball, s.drop_last()) + if destroyed(ball, s.last()) {
            1nat
        } else {
            0nat
        }
    }
}

/// The entities of `s` that survive this tick's collisions, in order.
pub open spec fn survivors(ball: Entity, s: Seq<Entity>) -> Seq<Entity>
    decreases s.len(),
{
    if s.len() == 0 {
        Seq::empty()
    } else {
        survivors(ball, s.drop_last()) + if destroyed(ball, s.last()) {
            Seq::empty()
        } else {
            seq![s.last()]
        }
    }
}

/// The sequence with the one ball's velocity replaced by `v`.
pub open spec fn with_ball_velocity(s: Seq<Entity>, v: Vec3) -> Seq<Entity> {
    s.map_values(
        |e: Entity|
            if e.kind == EntityKind::Ball {
                Entity { velocity: v, ..e }
            } else {
                e
            },
    )
}

/// One run of the collision resolver over a well-formed world: the bricks
/// the ball hit are gone, every other entity stands unchanged in order, and
/// the ball carries the velocity left after all reflections.
pub open spec fn resolve_seq(s: Seq<Entity>) -> Seq<Entity> {
    let b = ball_of(s);
    with_ball_velocity(survivors(b, s), vel_after(b, s, b.velocity))
}

/// Reflections keep the velocity bounded.
pub proof fn lemma_vel_after_in_range(ball: Entity, s: Seq<Entity>, v: Vec3)
    requires
        vec3_in_range(v, MAX_VEL as int),
    ensures
        vec3_in_range(vel_after(ball, s, v), MAX_VEL as int),
    decreases s.len(),
{
    if s.len() > 0 {
        lemma_vel_after_in_range(ball, s.drop_last(), v);
        match hit_side(ball, s.last()) {
            Some(side) => {
                lemma_reflect_in_range(vel_after(ball, s.drop_last(), v), side, MAX_VEL as int);
            },
            None => {},
        }
    }
}

/// No more entities are destroyed than hit, and no more hit than exist:
/// each destroyed brick accounts for exactly one collision event.
pub proof fn lemma_counts_bounded(ball: Entity, s: Seq<Entity>)
    ensures
        destroyed_count(ball, s) <= hit_count(ball, s),
        event_count(ball, s) <= hit_count(ball, s),
        hit_count(ball, s) <= s.len(),
    decreases s.len(),
{
    if s.len() > 0 {
        lemma_counts_bounded(ball, s.drop_last());
    }
}

/// What survives: every brick the ball hit is gone, exactly one point per
/// destroyed brick is owed, and entities of every other kind are all kept.
pub proof fn lemma_survivors_kind_count(ball: Entity, s: Seq<Entity>, k: EntityKind)
    ensures
        k != EntityKind::Brick ==> kind_count(survivors(ball, s), k) == kind_count(s, k),
        kind_count(survivors(ball, s), EntityKind::Brick) + destroyed_count(ball, s) == kind_count(
            s,
            EntityKind::Brick,
        ),
    decreases s.len(),
{
    if s.len() > 0 {
        lemma_survivors_kind_count(ball, s.drop_last(), k);
        if k != EntityKind::Brick {
            lemma_survivors_kind_count(ball, s.drop_last(), EntityKind::Brick);
        }
        let pre = survivors(ball, s.drop_last());
        if destroyed(ball, s.last()) {
            assert(pre + Seq::<Entity>::empty() =~= pre);
        } else {
            let e = s.last();
            assert((pre + seq![e]).drop_last() =~= pre);
            assert((pre + seq![e]).last() == e);
        }
    }
}

/// Every survivor is well formed where every entity of `s` is.
pub proof fn lemma_survivors_wf(ball: Entity, s: Seq<Entity>)
    requires
        forall|i: int| 0 <= i < s.len() ==> (#[trigger] s[i]).wf(),
    ensures
        forall|j: int| 0 <= j < survivors(ball, s).len() ==> (#[trigger] survivors(ball, s)[j]).wf(),
    decreases s.len(),
{
    if s.len() > 0 {
        assert(forall|i: int| 0 <= i < s.drop_last().len() ==> (#[trigger] s.drop_last()[i]).wf());
        lemma_survivors_wf(ball, s.drop_last());
        let pre = survivors(ball, s.drop_last());
        let whole = survivors(ball, s);
        assert forall|j: int| 0 <= j < whole.len() implies (#[trigger] whole[j]).wf() by {
            if j < pre.len() {
                assert(whole[j] == pre[j]);
            } else {
                assert(whole[j] == s.last());
                assert(s[s.len() - 1].wf());
            }
        }
    }
}

/// The index the search loop found is the one the specification names.
proof fn lemma_ball_at(s: Seq<Entity>, idx: int)
    requires
        wf_seq(s),
        0 <= idx < s.len(),
        s[idx].kind == EntityKind::Ball,
    ensures
        kind_index(s, EntityKind::Ball) == idx,
        ball_of(s) == s[idx],
{
    lemma_kind_count_exists(s, EntityKind::Ball);
    let j = kind_index(s, EntityKind::Ball);
    assert(0 <= j < s.len() && s[j].kind == EntityKind::Ball);
    lemma_kind_count_unique(s, EntityKind::Ball, idx, j);
}

/// The index of the one entity of kind `k` in a world that holds exactly
/// one.
pub fn find_kind(world: &World, k: EntityKind) -> (idx: usize)
    requires
        kind_count(world.entities@, k) == 1,
    ensures
        idx < world.entities@.len(),
        world.entities@[idx as int].kind == k,
{
    let ghost s = world.entities@;
    let n = world.entities.len();
    let mut i: usize = 0;
    while i < n
        invariant
            i <= n,
            n == s.len(),
            s == world.entities@,
            kind_count(s, k) == 1,
            kind_count(s.take(i as int), k) == 0,
        decreases n - i,
    {
        if world.entities[i].kind == k {
            return i;
        }
        proof {
            assert(s.take(i + 1).drop_last() =~= s.take(i as int));
            assert(s.take(i + 1).last() == s[i as int]);
        }
        i += 1;
    }
    proof {
        assert(s.take(n as int) =~= s);
        assert(false);
    }
    0
}

/// Runs the collision resolver once: tests the ball against every collider,
/// emits one event per struck side, reflects the ball's velocity off each
/// struck side in iteration order, removes every brick the ball overlaps
/// and scores one point for each. An entity the ball is embedded in is the
/// non-fatal anomaly: detected, but no side is named and nothing reflects.
pub fn check_for_collision(world: &mut World, scoreboard: &mut Scoreboard) -> (events: Vec<
    CollisionEvent,
>)
    requires
        wf_seq(old(world).entities@),
        old(scoreboard).score + old(world).entities@.len() <= u64::MAX,
    ensures
        final(world).entities@ == resolve_seq(old(world).entities@),
        wf_seq(final(world).entities@),
        final(scoreboard).score == old(scoreboard).score + destroyed_count(
            ball_of(old(world).entities@),
            old(world).entities@,
        ),
        final(scoreboard).score >= old(scoreboard).score,
        events@.len() == event_count(ball_of(old(world).entities@), old(world).entities@),
{
    let ghost s = world.entities@;
    let ghost score0 = scoreboard.score;
    let bi = find_kind(world, EntityKind::Ball);
    let ball = world.entities[bi];
    proof {
        lemma_ball_at(s, bi as int);
    }
    let mut vel = ball.velocity;
    let mut events: Vec<CollisionEvent> = Vec::new();
    let n = world.entities.len();
    let mut i: usize = 0;
    while i < n
        invariant
            i <= n,
            n == s.len(),
            s == world.entities@,
            wf_seq(s),
            ball == s[bi as int],
            bi < n,
            ball.kind == EntityKind::Ball,
            score0 + s.len() <= u64::MAX,
            vec3_in_range(vel, MAX_VEL as int),
            vel == vel_after(ball, s.take(i as int), ball.velocity),
            scoreboard.score == score0 + destroyed_count(ball, s.take(i as int)),
            events@.len() == event_count(ball, s.take(i as int)),
        decreases n - i,
    {
        let e = world.entities[i];
        proof {
            assert(s[i as int].wf());
            lemma_counts_bounded(ball, s.take(i as int));
            assert(s.take(i as int).len() == i as int);
            assert(s.take(i + 1).drop_last() =~= s.take(i as int));
            assert(s.take(i + 1).last() == s[i as int]);
        }
        if e.collider {
            let side = collide(
                ball.position.truncate(),
                ball.size.truncate(),
                e.position.truncate(),
                e.size.truncate(),
            );
            match side {
                Some(c) => {
                    if c != Collision::Inside {
                        events.push(CollisionEvent {  });
                    }
                    if e.kind == EntityKind::Brick {
                        scoreboard.score = scoreboard.score + 1;
                    }
                    vel = reflect_velocity(vel, c);
                },
                None => {},
            }
        }
        i += 1;
    }
    proof {
        assert(s.take(n as int) =~= s);
        lemma_vel_after_in_range(ball, s, ball.velocity);
        lemma_counts_bounded(ball, s);
    }
    // second pass: keep every entity that was not destroyed, the ball with
    // its reflected velocity
    let mut out: Vec<Entity> = Vec::new();
    let mut j: usize = 0;
    while j < n
        invariant
            j <= n,
            n == s.len(),
            s == world.entities@,
            wf_seq(s),
            ball == s[bi as int],
            bi < n,
            ball.kind == EntityKind::Ball,
            vec3_in_range(vel, MAX_VEL as int),
            vel == vel_after(ball, s, ball.velocity),
            out@ == with_ball_velocity(survivors(ball, s.take(j as int)), vel),
        decreases n - j,
    {
        let e = world.entities[j];
        proof {
            assert(s[j as int].wf());
            assert(s.take(j + 1).drop_last() =~= s.take(j as int));
            assert(s.take(j + 1).last() == s[j as int]);
        }
        let mut gone = false;
        if e.collider && e.kind == EntityKind::Brick {
            let side = collide(
                ball.position.truncate(),
                ball.size.truncate(),
                e.position.truncate(),
                e.size.truncate(),
            );
            gone = side.is_some();
        }
        if !gone {
            if e.kind == EntityKind::Ball {
                out.push(Entity { velocity: vel, ..e });
            } else {
                out.push(e);
            }
            proof {
                let pre = survivors(ball, s.take(j as int));
                assert(survivors(ball, s.take(j + 1)) =~= pre + seq![s[j as int]]);
                assert(out@ =~= with_ball_velocity(survivors(ball, s.take(j + 1)), vel));
            }
        } else {
            proof {
                let pre = survivors(ball, s.take(j as int));
                assert(survivors(ball, s.take(j + 1)) =~= pre);
            }
        }
        j += 1;
    }
    world.entities = out;
    proof {
        assert(s.take(n as int) =~= s);
        assert(world.entities@ == with_ball_velocity(survivors(ball, s), vel));
        assert(world.entities@ == resolve_seq(s));
        // the resolved world is well formed
        lemma_survivors_wf(ball, s);
        let sv = survivors(ball, s);
        let res = with_ball_velocity(sv, vel);
        assert forall|m: int| 0 <= m < res.len() implies (#[trigger] res[m]).wf() by {
            assert(sv[m].wf());
        }
        lemma_survivors_kind_count(ball, s, EntityKind::Ball);
        lemma_survivors_kind_count(ball, s, EntityKind::Paddle);
        lemma_kind_count_pointwise(res, sv, EntityKind::Ball);
        lemma_kind_count_pointwise(res, sv, EntityKind::Paddle);
    }
    events
}

/// Destroying bricks, stated over one resolver run: the brick count drops
/// by exactly the number of destroyed bricks, each destroyed brick stands
/// for one detected collision, and no other kind of entity is removed.
pub proof fn lemma_brick_destruction(s: Seq<Entity>)
    requires
        wf_seq(s),
    ensures
        kind_count(resolve_seq(s), EntityKind::Brick) + destroyed_count(ball_of(s), s)
            == kind_count(s, EntityKind::Brick),
        destroyed_count(ball_of(s), s) <= hit_count(ball_of(s), s),
        kind_count(resolve_seq(s), EntityKind::Ball) == 1,
        kind_count(resolve_seq(s), EntityKind::Paddle) == 1,
        kind_count(resolve_seq(s), EntityKind::Wall) == kind_count(s, EntityKind::Wall),
{
    let b = ball_of(s);
    let sv = survivors(b, s);
    let res = resolve_seq(s);
    lemma_counts_bounded(b, s);
    lemma_survivors_kind_count(b, s, EntityKind::Brick);
    lemma_survivors_kind_count(b, s, EntityKind::Ball);
    lemma_survivors_kind_count(b, s, EntityKind::Paddle);
    lemma_survivors_kind_count(b, s, EntityKind::Wall);
    lemma_kind_count_pointwise(res, sv, EntityKind::Brick);
    lemma_kind_count_pointwise(res, sv, EntityKind::Ball);
    lemma_kind_count_pointwise(res, sv, EntityKind::Paddle);
    lemma_kind_count_pointwise(res, sv, EntityKind::Wall);
}


// ---------------------------------------------------------------------------
// Paddle controller
// ---------------------------------------------------------------------------
/// Directional intent: up pressed counts plus one, down pressed counts
/// minus one; both or neither cancel out.
pub open spec fn paddle_direction(up: bool, down: bool) -> int {
    (if up {
        1int
    } else {
        0int
    }) - (if down {
        1int
    } else {
        0int
    })
}

/// `v` clamped into `lo ..= hi`.
pub open spec fn clamped(v: int, lo: int, hi: int) -> int {
    if v < lo {
        lo
    } else if v > hi {
        hi
    } else {
        v
    }
}

/// Where the paddle's center ends up: displaced by `direction * speed *
/// dt` and clamped into its travel range, so it never leaves the arena.
pub open spec fn paddle_target_x(
    e: Entity,
    cfg: LayoutConfig,
    up: bool,
    down: bool,
    num: int,
    den: int,
) -> int {
    clamped(
        e.position.x + paddle_direction(up, down) * scaled(cfg.paddle_speed as int, num, den),
        paddle_low_bound(cfg),
        paddle_high_bound(cfg),
    )
}

/// The world after the paddle controller ran: only the paddle moved, and
/// only horizontally.
pub open spec fn paddle_moved(
    s: Seq<Entity>,
    cfg: LayoutConfig,
    up: bool,
    down: bool,
    num: int,
    den: int,
) -> Seq<Entity> {
    s.map_values(
        |e: Entity|
            if e.kind == EntityKind::Paddle {
                Entity {
                    position: Vec3 {
                        x: paddle_target_x(e, cfg, up, down, num, den) as i64,
                        ..e.position
                    },
                    ..e
                }
            } else {
                e
            },
    )
}

/// Applies one tick of directional input to the paddle: moves it by
/// `direction * paddle_speed * dt` and clamps it to its travel range, so
/// the paddle never exits the arena.
pub fn move_object(
    world: &mut World,
    cfg: &LayoutConfig,
    up: bool,
    down: bool,
    dt_num: i64,
    dt_den: i64,
)
    requires
        wf_seq(old(world).entities@),
        cfg.valid(),
        0 <= dt_num <= MAX_DT_NUM,
        0 < dt_den,
    ensures
        final(world).entities@ == paddle_moved(
            old(world).entities@,
            *cfg,
            up,
            down,
            dt_num as int,
            dt_den as int,
        ),
        wf_seq(final(world).entities@),
{
    proof {
        lemma_paddle_bounds(*cfg);
    }
    let ghost s = world.entities@;
    let ghost num = dt_num as int;
    let ghost den = dt_den as int;
    let pi = find_kind(world, EntityKind::Paddle);
    let e = world.entities[pi];
    proof {
        assert(s[pi as int].wf());
    }
    let step = scale_by_dt(cfg.paddle_speed, dt_num, dt_den);
    let disp: i64 = if up && !down {
        step
    } else if down && !up {
        -step
    } else {
        0
    };
    proof {
        let sc = scaled(cfg.paddle_speed as int, num, den);
        assert(1 * sc == sc && (-1) * sc == -sc && 0 * sc == 0) by (nonlinear_arith);
        assert(disp == paddle_direction(up, down) * sc);
    }
    let target = e.position.x + disp;
    let aw = cfg.right - cfg.left;
    let half_w = div_nn(aw, 2);
    let half_t = div_nn(cfg.wall_thickness, 2);
    let half_p = div_nn(cfg.paddle_size.x, 2);
    let lo = -half_w + half_t + half_p + cfg.paddle_padding;
    let hi = half_w - half_t - half_p - cfg.paddle_padding;
    proof {
        assert(lo == paddle_low_bound(*cfg));
        assert(hi == paddle_high_bound(*cfg));
    }
    let nx: i64 = if target < lo {
        lo
    } else if target > hi {
        hi
    } else {
        target
    };
    let moved = Entity { position: Vec3 { x: nx, ..e.position }, ..e };
    world.entities.set(pi, moved);
    proof {
        let s1 = world.entities@;
        let pm = paddle_moved(s, *cfg, up, down, num, den);
        assert(nx == paddle_target_x(e, *cfg, up, down, num, den));
        assert forall|j: int| 0 <= j < s1.len() implies s1[j] == pm[j] by {
            if j != pi {
                if s[j].kind == EntityKind::Paddle {
                    lemma_kind_count_unique(s, EntityKind::Paddle, j, pi as int);
                }
            }
        }
        assert(s1 =~= pm);
        assert forall|j: int| 0 <= j < s1.len() implies (#[trigger] s1[j]).wf() by {
            assert(s[j].wf());
        }
        lemma_kind_count_pointwise(s1, s, EntityKind::Ball);
        lemma_kind_count_pointwise(s1, s, EntityKind::Paddle);
    }
}

// ---------------------------------------------------------------------------
// One tick
// ---------------------------------------------------------------------------
/// The world handed to the collision resolver: paddle input applied, then
/// every velocity integrated — in that order, so no collision lags a tick.
pub open spec fn tick_input(
    s: Seq<Entity>,
    cfg: LayoutConfig,
    up: bool,
    down: bool,
    num: int,
    den: int,
) -> Seq<Entity> {
    integrated(paddle_moved(s, cfg, up, down, num, den), num, den)
}

/// The whole world after one tick: paddle input, integration, collision
/// resolution.
pub open spec fn tick_seq(
    s: Seq<Entity>,
    cfg: LayoutConfig,
    up: bool,
    down: bool,
    num: int,
    den: int,
) -> Seq<Entity> {
    resolve_seq(tick_input(s, cfg, up, down, num, den))
}

/// How many bricks one tick destroys; the score grows by exactly this.
pub open spec fn tick_score_delta(
    s: Seq<Entity>,
    cfg: LayoutConfig,
    up: bool,
    down: bool,
    num: int,
    den: int,
) -> nat {
    let t = tick_input(s, cfg, up, down, num, den);
    destroyed_count(ball_of(t), t)
}

/// How many collision events one tick emits.
pub open spec fn tick_events(
    s: Seq<Entity>,
    cfg: LayoutConfig,
    up: bool,
    down: bool,
    num: int,
    den: int,
) -> nat {
    let t = tick_input(s, cfg, up, down, num, den);
    event_count(ball_of(t), t)
}

/// Moving the paddle moves nothing that carries a velocity, so the motion
/// bound carries over the paddle phase.
proof fn lemma_paddle_motion(
    s: Seq<Entity>,
    cfg: LayoutConfig,
    up: bool,
    down: bool,
    num: int,
    den: int,
)
    requires
        wf_seq(s),
        motion_bounded(s, num, den),
        wf_seq(paddle_moved(s, cfg, up, down, num, den)),
    ensures
        motion_bounded(paddle_moved(s, cfg, up, down, num, den), num, den),
{
    let pm = paddle_moved(s, cfg, up, down, num, den);
    assert forall|i: int|
        0 <= i < pm.len() implies vec3_in_range(
        moved_entity(#[trigger] pm[i], num, den).position,
        MAX_COORD as int,
    ) by {
        assert(pm[i].wf());
        if pm[i].has_velocity {
            assert(pm[i] == s[i]);
            assert(vec3_in_range(moved_entity(s[i], num, den).position, MAX_COORD as int));
        }
    }
}

/// One full simulation tick: paddle input, motion integration, collision
/// resolution, in that order. Returns this tick's collision events; the
/// scoreboard grows by one per destroyed brick and never decreases.
pub fn tick(
    world: &mut World,
    scoreboard: &mut Scoreboard,
    cfg: &LayoutConfig,
    up: bool,
    down: bool,
    dt_num: i64,
    dt_den: i64,
) -> (events: Vec<CollisionEvent>)
    requires
        old(world).wf(),
        cfg.valid(),
        0 <= dt_num <= MAX_DT_NUM,
        0 < dt_den,
        motion_bounded(old(world).entities@, dt_num as int, dt_den as int),
        old(scoreboard).score + old(world).entities@.len() <= u64::MAX,
    ensures
        final(world).entities@ == tick_seq(
            old(world).entities@,
            *cfg,
            up,
            down,
            dt_num as int,
            dt_den as int,
        ),
        final(world).wf(),
        final(scoreboard).score == old(scoreboard).score + tick_score_delta(
            old(world).entities@,
            *cfg,
            up,
            down,
            dt_num as int,
            dt_den as int,
        ),
        final(scoreboard).score >= old(scoreboard).score,
        events@.len() == tick_events(
            old(world).entities@,
            *cfg,
            up,
            down,
            dt_num as int,
            dt_den as int,
        ),
{
    let ghost s0 = world.entities@;
    let ghost num = dt_num as int;
    let ghost den = dt_den as int;
    move_object(world, cfg, up, down, dt_num, dt_den);
    proof {
        lemma_paddle_motion(s0, *cfg, up, down, num, den);
    }
    apply_velocity(world, dt_num, dt_den);
    proof {
        assert(world.entities@ == tick_input(s0, *cfg, up, down, num, den));
        assert(world.entities@.len() == s0.len());
    }
    check_for_collision(world, scoreboard)
}

} // verus!
