//! The per-tick simulation systems, in their fixed order: gravity, scheduled
//! thrust, semi-implicit Euler integration, and collision detection. No
//! system deletes anything directly; destruction is deferred to a pending
//! list that the state applies in one sweep after all systems ran.
//!
//! Each system has a spec-level transformer over the component tables; the
//! exec function is proved to compute exactly that transformer.

use vstd::prelude::*;
use vstd::arithmetic::div_mod::{
    lemma_div_is_ordered, lemma_div_is_ordered_by_denominator, lemma_div_multiples_vanish,
};

use crate::game::data::{
    Body, EntityId, Maneuver, Planet, Vec2, GRAV, MAX_COORD, MAX_FORCE, MAX_MASS, MILLI,
};
use crate::game::entities::{has_key, index_of, keys_of, keys_unique, Entities, Table};

verus! {

/// The longest stretch of time one tick may integrate over, in milliseconds.
pub const MAX_TICK_MS: u64 = 1000;

/// Clamping a scalar into `[-lim, lim]`.
pub open spec fn sp_clamp(v: int, lim: int) -> int {
    if v > lim {
        lim
    } else if v < -lim {
        -lim
    } else {
        v
    }
}

/// The integer square root: the largest `r` with `r * r <= n`.
pub open spec fn sp_isqrt(n: int) -> int {
    choose|r: int| 0 <= r && #[trigger] (r * r) <= n && (r + 1) * (r + 1) > n
}

/// Computes the integer square root by bisection.
pub fn isqrt(n: i64) -> (r: i64)
    requires
        n >= 0,
    ensures
        0 <= r < 3_037_000_500,
        r * r <= n,
        (r + 1) * (r + 1) > n,
        r == sp_isqrt(n as int),
{
    let mut lo: i64 = 0;
    let mut hi: i64 = 3_037_000_500;
    proof {
        assert((3_037_000_500int) * (3_037_000_500int) > i64::MAX) by (nonlinear_arith);
    }
    while lo + 1 < hi
        invariant
            0 <= lo < hi <= 3_037_000_500,
            (lo as int) * (lo as int) <= n,
            (hi as int) * (hi as int) > n,
            n >= 0,
        decreases hi - lo,
    {
        let mid = lo + (hi - lo) / 2;
        assert(lo < mid < hi);
        assert((mid as int) * (mid as int) <= (3_037_000_499int) * (3_037_000_499int))
            by (nonlinear_arith)
            requires
                0 <= mid <= 3_037_000_499,
        ;
        assert((3_037_000_499int) * (3_037_000_499int) < i64::MAX) by (nonlinear_arith);
        let sq = mid * mid;
        if sq <= n {
            lo = mid;
        } else {
            hi = mid;
        }
    }
    proof {
        assert((lo + 1) * (lo + 1) >= (hi as int) * (hi as int)) by (nonlinear_arith)
            requires
                0 <= hi <= lo + 1,
        ;
        assert(0 <= lo && (lo as int) * (lo as int) <= n && (lo + 1) * (lo + 1) > n);
        assert(forall|a: int, b: int|
            (0 <= a && #[trigger] (a * a) <= n && (a + 1) * (a + 1) > n && 0 <= b && #[trigger] (b
                * b) <= n && (b + 1) * (b + 1) > n) ==> a == b) by (nonlinear_arith);
    }
    lo
}

/// Clamps a force component into the world's force bounds.
pub fn clamp_force(v: i64) -> (r: i64)
    ensures
        r == sp_clamp(v as int, MAX_FORCE as int),
{
    if v > MAX_FORCE {
        MAX_FORCE
    } else if v < -MAX_FORCE {
        -MAX_FORCE
    } else {
        v
    }
}

/// Clamps a position or velocity component into the world's bounds.
pub fn clamp_coord(v: i64) -> (r: i64)
    ensures
        r == sp_clamp(v as int, MAX_COORD as int),
{
    if v > MAX_COORD {
        MAX_COORD
    } else if v < -MAX_COORD {
        -MAX_COORD
    } else {
        v
    }
}

/// The inverse-square attraction one planet adds to a body's accumulated
/// force: magnitude `GRAV * planet.mass / d^2` scaled by the body's mass,
/// directed along the unit vector toward the planet, saturating at the force
/// bound. A body exactly at the planet's center feels nothing.
pub open spec fn sp_gravity_step(b: Body, p: Planet) -> Body {
    let dx = p.position.x - b.position.x;
    let dy = p.position.y - b.position.y;
    let d2 = dx * dx + dy * dy;
    if d2 == 0 {
        b
    } else {
        let d = sp_isqrt(d2);
        let mag = GRAV * p.mass / d2;
        let magm = mag * b.mass / (MILLI as int);
        let fx = magm * (abs_int(dx) * (MILLI as int) / d) / (MILLI as int);
        let fy = magm * (abs_int(dy) * (MILLI as int) / d) / (MILLI as int);
        let sfx = if dx >= 0 {
            fx
        } else {
            -fx
        };
        let sfy = if dy >= 0 {
            fy
        } else {
            -fy
        };
        Body {
            force: Vec2 {
                x: sp_clamp(b.force.x + sfx, MAX_FORCE as int) as i64,
                y: sp_clamp(b.force.y + sfy, MAX_FORCE as int) as i64,
            },
            ..b
        }
    }
}

pub open spec fn abs_int(v: int) -> int {
    if v >= 0 {
        v
    } else {
        -v
    }
}

/// A square's root never exceeds the root of a larger square.
proof fn lemma_abs_le_isqrt(v: int, d2: int, d: int)
    requires
        v * v <= d2,
        0 <= d,
        d * d <= d2,
        (d + 1) * (d + 1) > d2,
    ensures
        abs_int(v) <= d,
{
    if abs_int(v) > d {
        assert(abs_int(v) * abs_int(v) >= (d + 1) * (d + 1)) by (nonlinear_arith)
            requires
                abs_int(v) >= d + 1 >= 0,
        ;
        assert(abs_int(v) * abs_int(v) == v * v) by (nonlinear_arith);
    }
}

/// Computes `sp_gravity_step` for one planet.
fn gravity_step(b: Body, p: &Planet) -> (r: Body)
    requires
        b.bounded(),
        p.bounded(),
    ensures
        r == sp_gravity_step(b, *p),
        r.bounded(),
        r.position == b.position && r.velocity == b.velocity && r.mass == b.mass,
{
    let dx = p.position.x - b.position.x;
    let dy = p.position.y - b.position.y;
    assert(dx * dx + dy * dy <= (8_000_000_000_000_000_000int)) by (nonlinear_arith)
        requires
            -2_000_000_000 <= dx <= 2_000_000_000,
            -2_000_000_000 <= dy <= 2_000_000_000,
    ;
    assert(dx * dx >= 0 && dy * dy >= 0) by (nonlinear_arith);
    let d2 = dx * dx + dy * dy;
    if d2 == 0 {
        return b;
    }
    let d = isqrt(d2);
    assert(d >= 1) by (nonlinear_arith)
        requires
            d >= 0,
            (d + 1) * (d + 1) > d2,
            d2 >= 1,
    ;
    assert(GRAV * p.mass <= 1_000_000_000_000int) by (nonlinear_arith)
        requires
            0 < p.mass <= MAX_MASS,
    ;
    let num = GRAV * p.mass;
    let mag = num / d2;
    proof {
        lemma_div_is_ordered_by_denominator(num as int, 1, d2 as int);
    }
    assert(mag * b.mass <= 1_000_000_000_000_000_000int) by (nonlinear_arith)
        requires
            0 <= mag <= 1_000_000_000_000int,
            0 < b.mass <= MAX_MASS,
    ;
    let magm = mag * b.mass / MILLI;
    assert(magm <= 1_000_000_000_000_000int);
    let adx = if dx >= 0 {
        dx
    } else {
        -dx
    };
    let ady = if dy >= 0 {
        dy
    } else {
        -dy
    };
    proof {
        lemma_abs_le_isqrt(dx as int, d2 as int, d as int);
        lemma_abs_le_isqrt(dy as int, d2 as int, d as int);
    }
    assert(adx * MILLI <= d * MILLI && 0 <= adx * MILLI) by (nonlinear_arith)
        requires
            0 <= adx <= d,
            MILLI > 0,
    ;
    assert(d * MILLI <= 3_037_000_500_000int);
    let ux = adx * MILLI / d;
    let uy = ady * MILLI / d;
    proof {
        lemma_div_is_ordered(adx * MILLI, d * MILLI, d as int);
        lemma_div_multiples_vanish(MILLI as int, d as int);
        assert(ux <= MILLI);
        assert(ady * MILLI <= d * MILLI && 0 <= ady * MILLI) by (nonlinear_arith)
            requires
                0 <= ady <= d,
                MILLI > 0,
        ;
        lemma_div_is_ordered(ady * MILLI, d * MILLI, d as int);
        assert(uy <= MILLI);
        assert(ux >= 0 && uy >= 0) by (nonlinear_arith)
            requires
                adx >= 0,
                ady >= 0,
                d >= 1,
                ux as int == adx * MILLI / (d as int),
                uy as int == ady * MILLI / (d as int),
                MILLI > 0,
        ;
    }
    assert(magm * ux <= 1_000_000_000_000_000_000int && magm * ux >= 0) by (nonlinear_arith)
        requires
            0 <= magm <= 1_000_000_000_000_000int,
            0 <= ux <= 1000,
    ;
    assert(magm * uy <= 1_000_000_000_000_000_000int && magm * uy >= 0) by (nonlinear_arith)
        requires
            0 <= magm <= 1_000_000_000_000_000int,
            0 <= uy <= 1000,
    ;
    let fx = magm * ux / MILLI;
    let fy = magm * uy / MILLI;
    let sfx = if dx >= 0 {
        fx
    } else {
        -fx
    };
    let sfy = if dy >= 0 {
        fy
    } else {
        -fy
    };
    let force = Vec2 { x: clamp_force(b.force.x + sfx), y: clamp_force(b.force.y + sfy) };
    Body { position: b.position, velocity: b.velocity, force, mass: b.mass }
}

/// Folding one body's force through every planet, in table order.
pub open spec fn sp_gravity_fold(b: Body, planets: Seq<(EntityId, Planet)>) -> Body
    decreases planets.len(),
{
    if planets.len() == 0 {
        b
    } else {
        sp_gravity_step(sp_gravity_fold(b, planets.drop_last()), planets.last().1)
    }
}

/// What gravity leaves in the bodies table: every body's force accumulates
/// each planet's pull; nothing else moves.
pub open spec fn sp_gravity(
    bodies: Seq<(EntityId, Body)>,
    planets: Seq<(EntityId, Planet)>,
) -> Seq<(EntityId, Body)> {
    Seq::new(bodies.len(), |i: int| (bodies[i].0, sp_gravity_fold(bodies[i].1, planets)))
}

/// Whether every body of a run of entries is within the world bounds.
pub open spec fn bodies_bounded(s: Seq<(EntityId, Body)>) -> bool {
    forall|i: int| 0 <= i < s.len() ==> (#[trigger] s[i]).1.bounded()
}

/// Whether every planet of a run of entries is within the world bounds.
pub open spec fn planets_bounded(s: Seq<(EntityId, Planet)>) -> bool {
    forall|i: int| 0 <= i < s.len() ==> (#[trigger] s[i]).1.bounded()
}

/// Whether every maneuver of a run of entries is within the world bounds.
pub open spec fn maneuvers_bounded(s: Seq<(EntityId, Maneuver)>) -> bool {
    forall|i: int| 0 <= i < s.len() ==> (#[trigger] s[i]).1.data.bounded()
}

proof fn lemma_gravity_fold_bounded(b: Body, planets: Seq<(EntityId, Planet)>)
    requires
        b.bounded(),
        planets_bounded(planets),
    ensures
        sp_gravity_fold(b, planets).bounded(),
        sp_gravity_fold(b, planets).position == b.position,
        sp_gravity_fold(b, planets).velocity == b.velocity,
        sp_gravity_fold(b, planets).mass == b.mass,
    decreases planets.len(),
{
    if planets.len() > 0 {
        assert(planets_bounded(planets.drop_last()));
        lemma_gravity_fold_bounded(b, planets.drop_last());
        let mid = sp_gravity_fold(b, planets.drop_last());
        let p = planets.last().1;
        assert(p.bounded());
        lemma_gravity_step_bounded(mid, p);
    }
}

proof fn lemma_gravity_step_bounded(b: Body, p: Planet)
    requires
        b.bounded(),
    ensures
        sp_gravity_step(b, p).bounded(),
        sp_gravity_step(b, p).position == b.position,
        sp_gravity_step(b, p).velocity == b.velocity,
        sp_gravity_step(b, p).mass == b.mass,
{
}

/// For every (planet, body) pair, accumulates an inverse-square attraction
/// force toward the planet.
pub fn apply_gravity(e: &mut Entities)
    requires
        old(e).wf(),
        bodies_bounded(old(e).bodies@),
        planets_bounded(old(e).planets@),
    ensures
        final(e).wf(),
        final(e).spec_next_id() == old(e).spec_next_id(),
        final(e).bodies@ == sp_gravity(old(e).bodies@, old(e).planets@),
        bodies_bounded(final(e).bodies@),
        final(e).planets@ == old(e).planets@,
        final(e).ships@ == old(e).ships@,
        final(e).maneuvers@ == old(e).maneuvers@,
        final(e).broadcasts@ == old(e).broadcasts@,
{
    let n = e.bodies.len();
    let mut k: usize = 0;
    while k < n
        invariant
            k <= n,
            n == e.bodies@.len(),
            e.wf(),
            e.spec_next_id() == old(e).spec_next_id(),
            e.bodies@.len() == old(e).bodies@.len(),
            planets_bounded(e.planets@),
            forall|i: int|
                k <= i < n ==> (#[trigger] e.bodies@[i]) == old(e).bodies@[i],
            forall|i: int|
                0 <= i < k ==> (#[trigger] e.bodies@[i]) == (
                old(e).bodies@[i].0,
                sp_gravity_fold(old(e).bodies@[i].1, old(e).planets@),
                ),
            bodies_bounded(old(e).bodies@),
            e.planets@ == old(e).planets@,
            e.ships@ == old(e).ships@,
            e.maneuvers@ == old(e).maneuvers@,
            e.broadcasts@ == old(e).broadcasts@,
        decreases n - k,
    {
        let m = e.planets.len();
        let mut b: Body = *e.bodies.val_at(k);
        assert(b == old(e).bodies@[k as int].1);
        assert(b.bounded());
        let mut j: usize = 0;
        proof {
            assert(old(e).planets@.take(0) =~= Seq::<(EntityId, Planet)>::empty());
        }
        while j < m
            invariant
                j <= m,
                m == old(e).planets@.len(),
                e.planets@ == old(e).planets@,
                planets_bounded(e.planets@),
                b == sp_gravity_fold(old(e).bodies@[k as int].1, old(e).planets@.take(j as int)),
                b.bounded(),
                k < old(e).bodies@.len(),
                bodies_bounded(old(e).bodies@),
            decreases m - j,
        {
            proof {
                assert(old(e).planets@.take(j as int + 1).drop_last() =~= old(e).planets@.take(
                    j as int,
                ));
                assert(old(e).planets@.take(j as int + 1).last() == old(e).planets@[j as int]);
            }
            let p = *e.planets.val_at(j);
            b = gravity_step(b, &p);
            j += 1;
        }
        proof {
            assert(old(e).planets@.take(m as int) =~= old(e).planets@);
        }
        e.bodies.set_at(k, b);
        k += 1;
    }
    proof {
        assert(e.bodies@ =~= sp_gravity(old(e).bodies@, old(e).planets@));
        assert forall|i: int| 0 <= i < e.bodies@.len() implies (#[trigger] e.bodies@[i]).1.bounded()
            by {
            lemma_gravity_fold_bounded(old(e).bodies@[i].1, old(e).planets@);
        }
    }
}

// --- scheduled thrust -------------------------------------------------------

/// The thrust force a maneuver adds: `thrust` per-mille of full throttle
/// along the maneuver's direction vector, saturating at the force bound.
pub open spec fn sp_thrust(b: Body, m: Maneuver) -> Body {
    Body {
        force: Vec2 {
            x: sp_clamp(b.force.x + m.data.thrust * m.data.direction.x, MAX_FORCE as int) as i64,
            y: sp_clamp(b.force.y + m.data.thrust * m.data.direction.y, MAX_FORCE as int) as i64,
        },
        ..b
    }
}

/// One maneuver's effect on the bodies: where its start time has been
/// reached and its ship still exists, the ship's force grows; a vanished
/// ship is skipped silently.
pub open spec fn sp_maneuver_step(
    bodies: Seq<(EntityId, Body)>,
    m: Maneuver,
    now_ms: u64,
) -> Seq<(EntityId, Body)> {
    if now_ms >= m.data.start_ms && has_key(bodies, m.ship_id) {
        let i = index_of(bodies, m.ship_id);
        bodies.update(i, (m.ship_id, sp_thrust(bodies[i].1, m)))
    } else {
        bodies
    }
}

/// Folding every maneuver's effect, in table order.
pub open spec fn sp_maneuvers(
    bodies: Seq<(EntityId, Body)>,
    ms: Seq<(EntityId, Maneuver)>,
    now_ms: u64,
) -> Seq<(EntityId, Body)>
    decreases ms.len(),
{
    if ms.len() == 0 {
        bodies
    } else {
        sp_maneuver_step(sp_maneuvers(bodies, ms.drop_last(), now_ms), ms.last().1, now_ms)
    }
}

/// The maneuvers whose whole span has elapsed, marked for destruction.
pub open spec fn sp_expired(ms: Seq<(EntityId, Maneuver)>, now_ms: u64) -> Seq<EntityId> {
    keys_of(
        ms.filter(
            |e: (EntityId, Maneuver)| now_ms >= e.1.data.start_ms + e.1.data.duration_ms,
        ),
    )
}

proof fn lemma_maneuver_step_shape(bodies: Seq<(EntityId, Body)>, m: Maneuver, now_ms: u64)
    requires
        bodies_bounded(bodies),
        m.data.bounded(),
        keys_unique(bodies),
    ensures
        bodies_bounded(sp_maneuver_step(bodies, m, now_ms)),
        keys_of(sp_maneuver_step(bodies, m, now_ms)) == keys_of(bodies),
        keys_unique(sp_maneuver_step(bodies, m, now_ms)),
{
    let r = sp_maneuver_step(bodies, m, now_ms);
    if now_ms >= m.data.start_ms && has_key(bodies, m.ship_id) {
        let i = index_of(bodies, m.ship_id);
        assert(0 <= i < bodies.len() && bodies[i].0 == m.ship_id);
        assert(keys_of(r) =~= keys_of(bodies));
    } else {
        assert(keys_of(r) =~= keys_of(bodies));
    }
    assert forall|i: int, j: int| 0 <= i < j < r.len() implies (#[trigger] r[i]).0 != (
    #[trigger] r[j]).0 by {
        assert(keys_of(r)[i] == r[i].0 && keys_of(r)[j] == r[j].0);
        assert(keys_of(bodies)[i] == bodies[i].0 && keys_of(bodies)[j] == bodies[j].0);
    }
}

proof fn lemma_maneuvers_shape(
    bodies: Seq<(EntityId, Body)>,
    ms: Seq<(EntityId, Maneuver)>,
    now_ms: u64,
)
    requires
        bodies_bounded(bodies),
        maneuvers_bounded(ms),
        keys_unique(bodies),
    ensures
        bodies_bounded(sp_maneuvers(bodies, ms, now_ms)),
        keys_of(sp_maneuvers(bodies, ms, now_ms)) == keys_of(bodies),
        keys_unique(sp_maneuvers(bodies, ms, now_ms)),
    decreases ms.len(),
{
    if ms.len() > 0 {
        assert(maneuvers_bounded(ms.drop_last()));
        lemma_maneuvers_shape(bodies, ms.drop_last(), now_ms);
        assert(ms.last().1.data.bounded());
        lemma_maneuver_step_shape(sp_maneuvers(bodies, ms.drop_last(), now_ms), ms.last().1, now_ms);
    }
}

/// For every live maneuver whose start time has been reached, adds its
/// thrust to the owning ship's body force; marks each maneuver whose span
/// has elapsed for destruction.
pub fn apply_maneuvers(e: &mut Entities, to_destroy: &mut Vec<EntityId>, now_ms: u64)
    requires
        old(e).wf(),
        bodies_bounded(old(e).bodies@),
        maneuvers_bounded(old(e).maneuvers@),
    ensures
        final(e).wf(),
        final(e).spec_next_id() == old(e).spec_next_id(),
        final(e).bodies@ == sp_maneuvers(old(e).bodies@, old(e).maneuvers@, now_ms),
        bodies_bounded(final(e).bodies@),
        final(e).planets@ == old(e).planets@,
        final(e).ships@ == old(e).ships@,
        final(e).maneuvers@ == old(e).maneuvers@,
        final(e).broadcasts@ == old(e).broadcasts@,
        final(to_destroy)@ == old(to_destroy)@ + sp_expired(old(e).maneuvers@, now_ms),
{
    let n = e.maneuvers.len();
    let mut k: usize = 0;
    proof {
        reveal(Seq::filter);
        assert(old(e).maneuvers@.take(0) =~= Seq::<(EntityId, Maneuver)>::empty());
        assert(sp_expired(old(e).maneuvers@.take(0), now_ms) =~= Seq::<EntityId>::empty());
        assert(to_destroy@ =~= to_destroy@ + sp_expired(old(e).maneuvers@.take(0), now_ms));
    }
    while k < n
        invariant
            k <= n,
            n == old(e).maneuvers@.len(),
            e.wf(),
            e.spec_next_id() == old(e).spec_next_id(),
            e.bodies@ == sp_maneuvers(old(e).bodies@, old(e).maneuvers@.take(k as int), now_ms),
            bodies_bounded(e.bodies@),
            bodies_bounded(old(e).bodies@),
            maneuvers_bounded(old(e).maneuvers@),
            keys_unique(old(e).bodies@),
            e.planets@ == old(e).planets@,
            e.ships@ == old(e).ships@,
            e.maneuvers@ == old(e).maneuvers@,
            e.broadcasts@ == old(e).broadcasts@,
            to_destroy@ == old(to_destroy)@ + sp_expired(
                old(e).maneuvers@.take(k as int),
                now_ms,
            ),
        decreases n - k,
    {
        proof {
            assert(old(e).maneuvers@.take(k as int + 1).drop_last() =~= old(e).maneuvers@.take(
                k as int,
            ));
            assert(old(e).maneuvers@.take(k as int + 1).last() == old(e).maneuvers@[k as int]);
        }
        let mid = e.maneuvers.key_at(k);
        let m: Maneuver = *e.maneuvers.val_at(k);
        assert(m.data.bounded());
        if now_ms >= m.data.start_ms {
            let current = match e.bodies.get(m.ship_id) {
                Some(b) => Some(*b),
                None => None,
            };
            match current {
                Some(b) => {
                    assert(b.bounded());
                    assert(m.data.thrust * m.data.direction.x <= 1_000_000 && m.data.thrust
                        * m.data.direction.x >= -1_000_000 && m.data.thrust * m.data.direction.y
                        <= 1_000_000 && m.data.thrust * m.data.direction.y >= -1_000_000)
                        by (nonlinear_arith)
                        requires
                            -1000 <= m.data.thrust <= 1000,
                            -1000 <= m.data.direction.x <= 1000,
                            -1000 <= m.data.direction.y <= 1000,
                    ;
                    let fx = m.data.thrust * m.data.direction.x;
                    let fy = m.data.thrust * m.data.direction.y;
                    let nb = Body {
                        position: b.position,
                        velocity: b.velocity,
                        force: Vec2 {
                            x: clamp_force(b.force.x + fx),
                            y: clamp_force(b.force.y + fy),
                        },
                        mass: b.mass,
                    };
                    let was = e.bodies.set(m.ship_id, nb);
                    assert(was);
                },
                None => {},
            }
        }
        if now_ms >= m.data.start_ms + m.data.duration_ms {
            to_destroy.push(mid);
        }
        k += 1;
        proof {
            reveal(Seq::filter);
            let pred = |en: (EntityId, Maneuver)|
                now_ms >= en.1.data.start_ms + en.1.data.duration_ms;
            assert(keys_of(old(e).maneuvers@.take(k as int).filter(pred)) =~= (if pred(
                old(e).maneuvers@[k as int - 1],
            ) {
                keys_of(old(e).maneuvers@.take(k as int - 1).filter(pred)).push(mid)
            } else {
                keys_of(old(e).maneuvers@.take(k as int - 1).filter(pred))
            }));
            assert(to_destroy@ =~= old(to_destroy)@ + sp_expired(
                old(e).maneuvers@.take(k as int),
                now_ms,
            ));
        }
    }
    proof {
        assert(old(e).maneuvers@.take(n as int) =~= old(e).maneuvers@);
    }
}

// --- integration ------------------------------------------------------------

/// Semi-implicit Euler over one tick: velocity picks up `force / mass`
/// over the elapsed milliseconds, position picks up the new velocity, both
/// saturating at the world bounds; the accumulated force is then zeroed.
pub open spec fn sp_integrate(b: Body, dt_ms: u64) -> Body {
    let dvx = abs_int(b.force.x as int) * dt_ms / (b.mass as int) / (MILLI as int);
    let dvy = abs_int(b.force.y as int) * dt_ms / (b.mass as int) / (MILLI as int);
    let vx = sp_clamp(
        b.velocity.x + (if b.force.x >= 0 {
            dvx
        } else {
            -dvx
        }),
        MAX_COORD as int,
    ) as i64;
    let vy = sp_clamp(
        b.velocity.y + (if b.force.y >= 0 {
            dvy
        } else {
            -dvy
        }),
        MAX_COORD as int,
    ) as i64;
    let dpx = abs_int(vx as int) * dt_ms / (MILLI as int);
    let dpy = abs_int(vy as int) * dt_ms / (MILLI as int);
    let px = sp_clamp(
        b.position.x + (if vx >= 0 {
            dpx
        } else {
            -dpx
        }),
        MAX_COORD as int,
    ) as i64;
    let py = sp_clamp(
        b.position.y + (if vy >= 0 {
            dpy
        } else {
            -dpy
        }),
        MAX_COORD as int,
    ) as i64;
    Body {
        position: Vec2 { x: px, y: py },
        velocity: Vec2 { x: vx, y: vy },
        force: Vec2 { x: 0, y: 0 },
        mass: b.mass,
    }
}

/// What integration leaves in the bodies table.
pub open spec fn sp_move(bodies: Seq<(EntityId, Body)>, dt_ms: u64) -> Seq<(EntityId, Body)> {
    Seq::new(bodies.len(), |i: int| (bodies[i].0, sp_integrate(bodies[i].1, dt_ms)))
}

/// Computes `sp_integrate` for one body.
fn integrate(b: Body, dt_ms: u64) -> (r: Body)
    requires
        b.bounded(),
        dt_ms <= MAX_TICK_MS,
    ensures
        r == sp_integrate(b, dt_ms),
        r.bounded(),
{
    let fxm = if b.force.x >= 0 {
        b.force.x
    } else {
        -b.force.x
    };
    let fym = if b.force.y >= 0 {
        b.force.y
    } else {
        -b.force.y
    };
    let dt = dt_ms as i64;
    assert(fxm * dt <= 1_000_000_000_000_000_000int && fxm * dt >= 0) by (nonlinear_arith)
        requires
            0 <= fxm <= MAX_FORCE,
            0 <= dt <= 1000,
    ;
    assert(fym * dt <= 1_000_000_000_000_000_000int && fym * dt >= 0) by (nonlinear_arith)
        requires
            0 <= fym <= MAX_FORCE,
            0 <= dt <= 1000,
    ;
    let dvx = fxm * dt / b.mass / MILLI;
    let dvy = fym * dt / b.mass / MILLI;
    proof {
        lemma_div_is_ordered_by_denominator(fxm * dt, 1, b.mass as int);
        lemma_div_is_ordered_by_denominator(fym * dt, 1, b.mass as int);
        lemma_div_is_ordered_by_denominator(fxm * dt / (b.mass as int), 1, MILLI as int);
        lemma_div_is_ordered_by_denominator(fym * dt / (b.mass as int), 1, MILLI as int);
    }
    let vx = clamp_coord(b.velocity.x + (if b.force.x >= 0 {
        dvx
    } else {
        -dvx
    }));
    let vy = clamp_coord(b.velocity.y + (if b.force.y >= 0 {
        dvy
    } else {
        -dvy
    }));
    let vxm = if vx >= 0 {
        vx
    } else {
        -vx
    };
    let vym = if vy >= 0 {
        vy
    } else {
        -vy
    };
    assert(vxm * dt <= 1_000_000_000_000int && vxm * dt >= 0) by (nonlinear_arith)
        requires
            0 <= vxm <= MAX_COORD,
            0 <= dt <= 1000,
    ;
    assert(vym * dt <= 1_000_000_000_000int && vym * dt >= 0) by (nonlinear_arith)
        requires
            0 <= vym <= MAX_COORD,
            0 <= dt <= 1000,
    ;
    let dpx = vxm * dt / MILLI;
    let dpy = vym * dt / MILLI;
    let px = clamp_coord(b.position.x + (if vx >= 0 {
        dpx
    } else {
        -dpx
    }));
    let py = clamp_coord(b.position.y + (if vy >= 0 {
        dpy
    } else {
        -dpy
    }));
    Body {
        position: Vec2 { x: px, y: py },
        velocity: Vec2 { x: vx, y: vy },
        force: Vec2 { x: 0, y: 0 },
        mass: b.mass,
    }
}

/// Integrates every body over the tick and zeroes its force.
pub fn move_bodies(e: &mut Entities, dt_ms: u64)
    requires
        old(e).wf(),
        bodies_bounded(old(e).bodies@),
        dt_ms <= MAX_TICK_MS,
    ensures
        final(e).wf(),
        final(e).spec_next_id() == old(e).spec_next_id(),
        final(e).bodies@ == sp_move(old(e).bodies@, dt_ms),
        bodies_bounded(final(e).bodies@),
        final(e).planets@ == old(e).planets@,
        final(e).ships@ == old(e).ships@,
        final(e).maneuvers@ == old(e).maneuvers@,
        final(e).broadcasts@ == old(e).broadcasts@,
{
    let n = e.bodies.len();
    let mut k: usize = 0;
    while k < n
        invariant
            k <= n,
            n == e.bodies@.len(),
            e.wf(),
            e.spec_next_id() == old(e).spec_next_id(),
            e.bodies@.len() == old(e).bodies@.len(),
            bodies_bounded(old(e).bodies@),
            forall|i: int| k <= i < n ==> (#[trigger] e.bodies@[i]) == old(e).bodies@[i],
            forall|i: int|
                0 <= i < k ==> (#[trigger] e.bodies@[i]) == (
                old(e).bodies@[i].0,
                sp_integrate(old(e).bodies@[i].1, dt_ms),
                ),
            forall|i: int| 0 <= i < k ==> (#[trigger] e.bodies@[i]).1.bounded(),
            dt_ms <= MAX_TICK_MS,
            e.planets@ == old(e).planets@,
            e.ships@ == old(e).ships@,
            e.maneuvers@ == old(e).maneuvers@,
            e.broadcasts@ == old(e).broadcasts@,
        decreases n - k,
    {
        let b: Body = *e.bodies.val_at(k);
        let nb = integrate(b, dt_ms);
        e.bodies.set_at(k, nb);
        k += 1;
    }
    proof {
        assert(e.bodies@ =~= sp_move(old(e).bodies@, dt_ms));
    }
}

// --- collision detection ----------------------------------------------------

/// Whether the body's center lies strictly inside the planet.
pub open spec fn sp_within(b: Body, p: Planet) -> bool {
    let dx = b.position.x - p.position.x;
    let dy = b.position.y - p.position.y;
    dx * dx + dy * dy < p.radius * p.radius
}

/// Whether any planet swallows the body.
pub open spec fn sp_hit(b: Body, planets: Seq<(EntityId, Planet)>) -> bool {
    exists|j: int| 0 <= j < planets.len() && sp_within(b, (#[trigger] planets[j]).1)
}

/// The bodies marked for destruction by collision, in table order.
pub open spec fn sp_collided(
    bodies: Seq<(EntityId, Body)>,
    planets: Seq<(EntityId, Planet)>,
) -> Seq<EntityId> {
    keys_of(bodies.filter(|e: (EntityId, Body)| sp_hit(e.1, planets)))
}

/// Whether any planet swallows the body, decided at run time.
fn hits_any(b: &Body, planets: &Table<Planet>) -> (r: bool)
    requires
        b.bounded(),
        planets_bounded(planets@),
    ensures
        r == sp_hit(*b, planets@),
{
    let m = planets.len();
    let mut j: usize = 0;
    while j < m
        invariant
            j <= m,
            m == planets@.len(),
            b.bounded(),
            planets_bounded(planets@),
            forall|i: int| 0 <= i < j ==> !sp_within(*b, (#[trigger] planets@[i]).1),
        decreases m - j,
    {
        let p = *planets.val_at(j);
        assert(p.bounded());
        let dx = b.position.x - p.position.x;
        let dy = b.position.y - p.position.y;
        assert(dx * dx + dy * dy <= 8_000_000_000_000_000_000int && dx * dx >= 0 && dy * dy
            >= 0) by (nonlinear_arith)
            requires
                -2_000_000_000 <= dx <= 2_000_000_000,
                -2_000_000_000 <= dy <= 2_000_000_000,
        ;
        assert(p.radius * p.radius <= 1_000_000_000_000_000_000int && p.radius * p.radius >= 0)
            by (nonlinear_arith)
            requires
                0 <= p.radius <= MAX_COORD,
        ;
        if dx * dx + dy * dy < p.radius * p.radius {
            assert(sp_within(*b, planets@[j as int].1));
            return true;
        }
        j += 1;
    }
    false
}

/// For every (body, planet) pair, marks the body for destruction if it lies
/// inside the planet. Nothing is removed here; the sweep comes after all
/// systems ran.
pub fn check_collisions(e: &Entities, to_destroy: &mut Vec<EntityId>)
    requires
        e.wf(),
        bodies_bounded(e.bodies@),
        planets_bounded(e.planets@),
    ensures
        final(to_destroy)@ == old(to_destroy)@ + sp_collided(e.bodies@, e.planets@),
{
    let n = e.bodies.len();
    let mut k: usize = 0;
    proof {
        reveal(Seq::filter);
        assert(e.bodies@.take(0) =~= Seq::<(EntityId, Body)>::empty());
        assert(to_destroy@ =~= to_destroy@ + sp_collided(e.bodies@.take(0), e.planets@));
    }
    while k < n
        invariant
            k <= n,
            n == e.bodies@.len(),
            e.wf(),
            bodies_bounded(e.bodies@),
            planets_bounded(e.planets@),
            to_destroy@ == old(to_destroy)@ + sp_collided(e.bodies@.take(k as int), e.planets@),
        decreases n - k,
    {
        proof {
            assert(e.bodies@.take(k as int + 1).drop_last() =~= e.bodies@.take(k as int));
            assert(e.bodies@.take(k as int + 1).last() == e.bodies@[k as int]);
        }
        let id = e.bodies.key_at(k);
        let b: Body = *e.bodies.val_at(k);
        assert(b.bounded());
        if hits_any(&b, &e.planets) {
            to_destroy.push(id);
        }
        k += 1;
        proof {
            reveal(Seq::filter);
            let pred = |en: (EntityId, Body)| sp_hit(en.1, e.planets@);
            assert(keys_of(e.bodies@.take(k as int).filter(pred)) =~= (if pred(
                e.bodies@[k as int - 1],
            ) {
                keys_of(e.bodies@.take(k as int - 1).filter(pred)).push(id)
            } else {
                keys_of(e.bodies@.take(k as int - 1).filter(pred))
            }));
            assert(to_destroy@ =~= old(to_destroy)@ + sp_collided(
                e.bodies@.take(k as int),
                e.planets@,
            ));
        }
    }
    proof {
        assert(e.bodies@.take(n as int) =~= e.bodies@);
    }
}

// --- laws of thrust ---------------------------------------------------------

/// The velocity a body has along a direction vector.
pub open spec fn sp_velocity_along(b: Body, direction: Vec2) -> int {
    b.velocity.x * direction.x + b.velocity.y * direction.y
}

/// Law: over a tick inside a maneuver's span, positive thrust strictly
/// increases the ship's velocity along the maneuver's direction. The inputs
/// left out are those where the effect cannot appear: a velocity so close to
/// the world bound that saturation absorbs the gain, or a tick so short that
/// the integer velocity step truncates to zero on both axes.
pub proof fn lemma_thrust_increases_velocity(b: Body, m: Maneuver, now_ms: u64, dt_ms: u64)
    requires
        b.bounded(),
        m.data.bounded(),
        b.force.x == 0 && b.force.y == 0,
        m.data.thrust > 0,
        now_ms >= m.data.start_ms,
        dt_ms <= MAX_TICK_MS,
        -MAX_COORD + 1_000_000 <= b.velocity.x <= MAX_COORD - 1_000_000,
        -MAX_COORD + 1_000_000 <= b.velocity.y <= MAX_COORD - 1_000_000,
        (abs_int(m.data.thrust * m.data.direction.x) * dt_ms / (b.mass as int) / (MILLI as int)
            >= 1 && abs_int(m.data.direction.x as int) >= 1) || (abs_int(
            m.data.thrust * m.data.direction.y,
        ) * dt_ms / (b.mass as int) / (MILLI as int) >= 1 && abs_int(m.data.direction.y as int)
            >= 1),
    ensures
        sp_velocity_along(sp_integrate(sp_thrust(b, m), dt_ms), m.data.direction)
            > sp_velocity_along(b, m.data.direction),
{
    let fx = m.data.thrust * m.data.direction.x;
    let fy = m.data.thrust * m.data.direction.y;
    assert(-1_000_000 <= fx <= 1_000_000 && -1_000_000 <= fy <= 1_000_000) by (nonlinear_arith)
        requires
            0 < m.data.thrust <= 1000,
            -1000 <= m.data.direction.x <= 1000,
            -1000 <= m.data.direction.y <= 1000,
            fx == m.data.thrust * m.data.direction.x,
            fy == m.data.thrust * m.data.direction.y,
    ;
    let b1 = sp_thrust(b, m);
    assert(b1.force.x == fx && b1.force.y == fy);
    assert(b1.velocity == b.velocity && b1.mass == b.mass);
    let afx = abs_int(fx);
    let afy = abs_int(fy);
    let px = afx * dt_ms;
    let py = afy * dt_ms;
    assert(0 <= px <= 1_000_000_000int && 0 <= py <= 1_000_000_000int) by (nonlinear_arith)
        requires
            0 <= afx <= 1_000_000,
            0 <= afy <= 1_000_000,
            0 <= dt_ms <= 1000,
            px == afx * dt_ms,
            py == afy * dt_ms,
    ;
    let dvx = px / (b1.mass as int) / (MILLI as int);
    let dvy = py / (b1.mass as int) / (MILLI as int);
    lemma_div_is_ordered_by_denominator(px, 1, b1.mass as int);
    lemma_div_is_ordered_by_denominator(py, 1, b1.mass as int);
    vstd::arithmetic::div_mod::lemma_div_pos_is_pos(px, b1.mass as int);
    vstd::arithmetic::div_mod::lemma_div_pos_is_pos(py, b1.mass as int);
    lemma_div_is_ordered_by_denominator(px / (b1.mass as int), 1, MILLI as int);
    lemma_div_is_ordered_by_denominator(py / (b1.mass as int), 1, MILLI as int);
    vstd::arithmetic::div_mod::lemma_div_pos_is_pos(px / (b1.mass as int), MILLI as int);
    vstd::arithmetic::div_mod::lemma_div_pos_is_pos(py / (b1.mass as int), MILLI as int);
    assert(0 <= dvx <= 1_000_000_000int && 0 <= dvy <= 1_000_000_000int);
    let b2 = sp_integrate(b1, dt_ms);
    let sdx: int = if fx >= 0 {
        dvx
    } else {
        -dvx
    };
    let sdy: int = if fy >= 0 {
        dvy
    } else {
        -dvy
    };
    assert(-1_000_000_000int <= sdx <= 1_000_000_000int);
    assert(b2.velocity.x == b.velocity.x + sdx && b2.velocity.y == b.velocity.y + sdy);
    let gain_x = sdx * m.data.direction.x;
    let gain_y = sdy * m.data.direction.y;
    assert(gain_x >= 0 && gain_y >= 0) by (nonlinear_arith)
        requires
            (fx >= 0 ==> sdx == dvx),
            (fx < 0 ==> sdx == -dvx),
            (fy >= 0 ==> sdy == dvy),
            (fy < 0 ==> sdy == -dvy),
            fx == m.data.thrust * m.data.direction.x,
            fy == m.data.thrust * m.data.direction.y,
            m.data.thrust > 0,
            dvx >= 0,
            dvy >= 0,
            gain_x == sdx * m.data.direction.x,
            gain_y == sdy * m.data.direction.y,
    ;
    if dvx >= 1 && abs_int(m.data.direction.x as int) >= 1 {
        assert(gain_x >= 1) by (nonlinear_arith)
            requires
                (fx >= 0 ==> sdx == dvx),
                (fx < 0 ==> sdx == -dvx),
                fx == m.data.thrust * m.data.direction.x,
                m.data.thrust > 0,
                (m.data.direction.x >= 1 || m.data.direction.x <= -1),
                dvx >= 1,
                gain_x == sdx * m.data.direction.x,
        ;
    } else {
        assert(dvy >= 1 && abs_int(m.data.direction.y as int) >= 1);
        assert(gain_y >= 1) by (nonlinear_arith)
            requires
                (fy >= 0 ==> sdy == dvy),
                (fy < 0 ==> sdy == -dvy),
                fy == m.data.thrust * m.data.direction.y,
                m.data.thrust > 0,
                (m.data.direction.y >= 1 || m.data.direction.y <= -1),
                dvy >= 1,
                gain_y == sdy * m.data.direction.y,
        ;
    }
    assert(sp_velocity_along(b2, m.data.direction) == sp_velocity_along(b, m.data.direction)
        + gain_x + gain_y) by (nonlinear_arith)
        requires
            b2.velocity.x == b.velocity.x + sdx,
            b2.velocity.y == b.velocity.y + sdy,
            gain_x == sdx * m.data.direction.x,
            gain_y == sdy * m.data.direction.y,
            sp_velocity_along(b2, m.data.direction) == b2.velocity.x * m.data.direction.x
                + b2.velocity.y * m.data.direction.y,
            sp_velocity_along(b, m.data.direction) == b.velocity.x * m.data.direction.x
                + b.velocity.y * m.data.direction.y,
    ;
}

/// Law: with no force accumulated, integration leaves the velocity alone;
/// so once a maneuver's span has elapsed and it was destroyed, the velocity
/// stays constant.
pub proof fn lemma_no_force_constant_velocity(b: Body, dt_ms: u64)
    requires
        b.bounded(),
        b.force.x == 0 && b.force.y == 0,
    ensures
        sp_integrate(b, dt_ms).velocity == b.velocity,
{
    assert(abs_int(0int) == 0);
    assert((0int) * dt_ms == 0) by (nonlinear_arith);
    vstd::arithmetic::div_mod::lemma_div_of0(b.mass as int);
    vstd::arithmetic::div_mod::lemma_div_of0(MILLI as int);
}

/// Law: zero thrust changes nothing — a maneuver with thrust zero adds no
/// force, and the following integration leaves the velocity as it was.
pub proof fn lemma_zero_thrust_no_velocity_change(b: Body, m: Maneuver, dt_ms: u64)
    requires
        b.bounded(),
        b.force.x == 0 && b.force.y == 0,
        m.data.thrust == 0,
        m.data.bounded(),
    ensures
        sp_thrust(b, m) == b,
        sp_integrate(sp_thrust(b, m), dt_ms).velocity == b.velocity,
{
    assert(m.data.thrust * m.data.direction.x == 0) by (nonlinear_arith)
        requires
            m.data.thrust == 0,
    ;
    assert(m.data.thrust * m.data.direction.y == 0) by (nonlinear_arith)
        requires
            m.data.thrust == 0,
    ;
    assert(sp_thrust(b, m) == b);
    lemma_no_force_constant_velocity(b, dt_ms);
}

/// Law: a maneuver whose whole span has elapsed is on the tick's
/// pending-destroy list.
pub proof fn lemma_expired_maneuver_marked(ms: Seq<(EntityId, Maneuver)>, i: int, now_ms: u64)
    requires
        0 <= i < ms.len(),
        now_ms >= ms[i].1.data.start_ms + ms[i].1.data.duration_ms,
    ensures
        sp_expired(ms, now_ms).contains(ms[i].0),
{
    reveal(Seq::filter);
    let pred = |e: (EntityId, Maneuver)| now_ms >= e.1.data.start_ms + e.1.data.duration_ms;
    ms.filter_lemma(pred);
    assert(ms.filter(pred).contains(ms[i]));
    let j = choose|j: int| 0 <= j < ms.filter(pred).len() && ms.filter(pred)[j] == ms[i];
    assert(keys_of(ms.filter(pred))[j] == ms[i].0);
}

} // verus!
