//! The entity and world model: positions, velocities, sizes and kind tags
//! for the ball, the paddle, the walls and the bricks, together with the
//! scoreboard and the per-tick collision event.

use vstd::prelude::*;

use crate::geometry::{vec3_in_range, Vec3, MAX_COORD};

verus! {

/// Largest magnitude a velocity component may have.
pub const MAX_VEL: i64 = 0x100_0000_0000;

/// Largest numerator a timestep fraction may have. A timestep is a fraction
/// of a second, `dt_num / dt_den`; bounding the numerator keeps `velocity *
/// dt_num` inside `i64`.
pub const MAX_DT_NUM: i64 = 0x10_0000;

/// What an entity is. Exactly one `Ball` and one `Paddle` live in a
/// well-formed world; walls are fixed, bricks are destroyed over time.
#[derive(Clone, Copy, PartialEq, Eq, Structural, Debug)]
pub enum EntityKind {
    Ball,
    Paddle,
    Wall,
    Brick,
}

/// One entity of the world: an identity, a kind tag, a box given by center
/// and full size, and two capability flags. `velocity` is meaningful only
/// where `has_velocity` holds; `collider` marks the entity as a target of
/// the ball's collision test.
#[derive(Clone, Copy, PartialEq, Eq, Structural, Debug)]
pub struct Entity {
    pub id: u64,
    pub kind: EntityKind,
    pub position: Vec3,
    pub size: Vec3,
    pub has_velocity: bool,
    pub velocity: Vec3,
    pub collider: bool,
}

impl Entity {
    /// Numeric sanity of one entity: the box sits on the bounded coordinate
    /// grid with strictly positive size, the velocity is bounded and carried
    /// exactly by the ball, and the ball is never its own collision target.
    pub open spec fn wf(self) -> bool {
        &&& vec3_in_range(self.position, MAX_COORD as int)
        &&& 0 < self.size.x <= MAX_COORD
        &&& 0 < self.size.y <= MAX_COORD
        &&& 0 < self.size.z <= MAX_COORD
        &&& vec3_in_range(self.velocity, MAX_VEL as int)
        &&& self.has_velocity <==> self.kind == EntityKind::Ball
        &&& self.kind == EntityKind::Ball ==> !self.collider
        &&& !self.has_velocity ==> self.velocity == (Vec3 { x: 0, y: 0, z: 0 })
    }
}

/// How many entities of kind `k` the sequence holds.
pub open spec fn kind_count(s: Seq<Entity>, k: EntityKind) -> nat
    decreases s.len(),
{
    if s.len() == 0 {
        0
    } else {
        kind_count(s.drop_last(), k) + if s.last().kind == k {
            1nat
        } else {
            0nat
        }
    }
}

/// A world is well formed when every entity is, and it holds exactly one
/// ball and exactly one paddle.
pub open spec fn wf_seq(s: Seq<Entity>) -> bool {
    &&& forall|i: int| 0 <= i < s.len() ==> (#[trigger] s[i]).wf()
    &&& kind_count(s, EntityKind::Ball) == 1
    &&& kind_count(s, EntityKind::Paddle) == 1
}

/// The index of the one entity of kind `k`, where exactly one exists.
pub open spec fn kind_index(s: Seq<Entity>, k: EntityKind) -> int {
    choose|i: int| 0 <= i < s.len() && s[i].kind == k
}

/// The one ball of a well-formed world.
pub open spec fn ball_of(s: Seq<Entity>) -> Entity {
    s[kind_index(s, EntityKind::Ball)]
}

/// A world of kind `k` holds at least one entity of that kind wherever its
/// count is positive.
pub proof fn lemma_kind_count_exists(s: Seq<Entity>, k: EntityKind)
    requires
        kind_count(s, k) > 0,
    ensures
        exists|i: int| 0 <= i < s.len() && (#[trigger] s[i]).kind == k,
    decreases s.len(),
{
    if s.last().kind == k {
        assert(s[s.len() - 1].kind == k);
    } else {
        lemma_kind_count_exists(s.drop_last(), k);
        let i = choose|i: int| 0 <= i < s.drop_last().len() && (#[trigger] s.drop_last()[i]).kind
            == k;
        assert(s[i].kind == k);
    }
}

/// Where the count of kind `k` is one, two indices that both hold kind `k`
/// coincide.
pub proof fn lemma_kind_count_unique(s: Seq<Entity>, k: EntityKind, i: int, j: int)
    requires
        kind_count(s, k) == 1,
        0 <= i < s.len(),
        0 <= j < s.len(),
        s[i].kind == k,
        s[j].kind == k,
    ensures
        i == j,
    decreases s.len(),
{
    lemma_kind_count_prefix(s, k, if i < j {
        i
    } else {
        j
    });
    if i != j {
        let lo = if i < j {
            i
        } else {
            j
        };
        let hi = if i < j {
            j
        } else {
            i
        };
        assert(s.take(lo + 1).last().kind == k);
        assert(kind_count(s.take(lo + 1), k) >= 1) by {
            lemma_kind_count_last(s.take(lo + 1), k);
        }
        lemma_kind_count_from(s, k, lo + 1, hi);
    }
}

/// The count over a whole sequence is at least the count over a prefix.
pub proof fn lemma_kind_count_prefix(s: Seq<Entity>, k: EntityKind, n: int)
    requires
        0 <= n <= s.len(),
    ensures
        kind_count(s, k) >= kind_count(s.take(n), k),
    decreases s.len(),
{
    if n < s.len() {
        assert(s.drop_last().take(n) =~= s.take(n));
        lemma_kind_count_prefix(s.drop_last(), k, n);
    } else {
        assert(s.take(n) =~= s);
    }
}

proof fn lemma_kind_count_last(s: Seq<Entity>, k: EntityKind)
    requires
        s.len() > 0,
        s.last().kind == k,
    ensures
        kind_count(s, k) >= 1,
{
}

/// Where an entity of kind `k` stands at index `j >= n`, the whole count
/// exceeds the count of the prefix of length `n`.
proof fn lemma_kind_count_from(s: Seq<Entity>, k: EntityKind, n: int, j: int)
    requires
        0 <= n <= j < s.len(),
        s[j].kind == k,
    ensures
        kind_count(s, k) > kind_count(s.take(n), k),
    decreases s.len(),
{
    if j == s.len() - 1 {
        lemma_kind_count_prefix(s.drop_last(), k, n);
        assert(s.drop_last().take(n) =~= s.take(n));
    } else {
        lemma_kind_count_from(s.drop_last(), k, n, j);
        assert(s.drop_last().take(n) =~= s.take(n));
    }
}

/// Counting distributes over concatenation.
pub proof fn lemma_kind_count_concat(a: Seq<Entity>, b: Seq<Entity>, k: EntityKind)
    ensures
        kind_count(a + b, k) == kind_count(a, k) + kind_count(b, k),
    decreases b.len(),
{
    if b.len() == 0 {
        assert(a + b =~= a);
    } else {
        assert((a + b).drop_last() =~= a + b.drop_last());
        assert((a + b).last() == b.last());
        lemma_kind_count_concat(a, b.drop_last(), k);
    }
}

/// A sequence of entities all of kind `k` counts its whole length for `k`.
pub proof fn lemma_kind_count_all(s: Seq<Entity>, k: EntityKind)
    requires
        forall|i: int| 0 <= i < s.len() ==> (#[trigger] s[i]).kind == k,
    ensures
        kind_count(s, k) == s.len(),
    decreases s.len(),
{
    if s.len() > 0 {
        lemma_kind_count_all(s.drop_last(), k);
    }
}

/// A sequence of entities none of kind `k` counts zero for `k`.
pub proof fn lemma_kind_count_none(s: Seq<Entity>, k: EntityKind)
    requires
        forall|i: int| 0 <= i < s.len() ==> (#[trigger] s[i]).kind != k,
    ensures
        kind_count(s, k) == 0,
    decreases s.len(),
{
    if s.len() > 0 {
        lemma_kind_count_none(s.drop_last(), k);
    }
}

/// Two sequences whose entities agree pointwise on their kind hold every
/// kind equally often.
pub proof fn lemma_kind_count_pointwise(s1: Seq<Entity>, s2: Seq<Entity>, k: EntityKind)
    requires
        s1.len() == s2.len(),
        forall|i: int| 0 <= i < s1.len() ==> (#[trigger] s1[i]).kind == (#[trigger] s2[i]).kind,
    ensures
        kind_count(s1, k) == kind_count(s2, k),
    decreases s1.len(),
{
    if s1.len() > 0 {
        lemma_kind_count_pointwise(s1.drop_last(), s2.drop_last(), k);
    }
}

/// The arena of entities. Insertion order is irrelevant for collision but
/// kept by every operation; the brick grid is built row-major.
pub struct World {
    pub entities: Vec<Entity>,
}

impl World {
    pub open spec fn wf(self) -> bool {
        wf_seq(self.entities@)
    }
}

/// Counts the entities of one kind, as the presentation layer reads brick
/// or wall counts off a snapshot.
pub fn count_kind(world: &World, k: EntityKind) -> (n: u64)
    ensures
        n == kind_count(world.entities@, k),
{
    let ghost s = world.entities@;
    let m = world.entities.len();
    let mut n: u64 = 0;
    let mut i: usize = 0;
    while i < m
        invariant
            i <= m,
            m == s.len(),
            s == world.entities@,
            n == kind_count(s.take(i as int), k),
            n <= i,
        decreases m - i,
    {
        proof {
            assert(s.take(i + 1).drop_last() =~= s.take(i as int));
            assert(s.take(i + 1).last() == s[i as int]);
        }
        if world.entities[i].kind == k {
            n = n + 1;
        }
        i += 1;
    }
    proof {
        assert(s.take(m as int) =~= s);
    }
    n
}

/// The score counter: one point per brick destroyed, never decreased, reset
/// only by building a fresh one at game start.
#[derive(Clone, Copy, PartialEq, Eq, Structural, Debug)]
pub struct Scoreboard {
    pub score: u64,
}

impl Scoreboard {
    /// A fresh scoreboard, as at game start.
    pub fn new() -> (r: Scoreboard)
        ensures
            r.score == 0,
    {
        Scoreboard { score: 0 }
    }
}

/// An ephemeral notification that a collision happened this tick; it carries
/// no payload and is not persisted.
#[derive(Clone, Copy, PartialEq, Eq, Structural, Debug)]
pub struct CollisionEvent {
}

} // verus!
