//! Client-side reconciliation: per remote entity, the two most recent
//! timestamped body snapshots, merged from out-of-order perceptions, with
//! linear interpolation between them for smooth rendering.

use vstd::prelude::*;

use crate::game::data::{Body, EntityId, Vec2, MAX_COORD};
use crate::game::entities::{has_key, index_of, value_of, Table};

verus! {

/// The two most recent snapshots of one remote entity, timestamped by a
/// receive-relative clock.
#[derive(Clone, Copy, Debug, PartialEq, Eq, Structural)]
pub struct Interpolated {
    pub previous_time: u64,
    pub current_time: u64,
    pub previous: Option<Body>,
    pub current: Option<Body>,
}

impl Interpolated {
    /// On first sighting, both slots hold the same state.
    pub fn new(current_time: u64, body: Option<Body>) -> (r: Interpolated)
        ensures
            r == (Interpolated {
                previous_time: current_time,
                current_time,
                previous: body,
                current: body,
            }),
    {
        Interpolated { previous_time: current_time, current_time, previous: body, current: body }
    }
}

/// Where linear motion from `p0` at `t0` to `p1` at `t1` stands at `t`,
/// clamped into `[t0, t1]`; a zero-length interval yields the current
/// position unmodified.
pub open spec fn sp_lerp(p0: Vec2, t0: u64, p1: Vec2, t1: u64, t: u64) -> Vec2 {
    if t1 <= t0 || t >= t1 {
        p1
    } else if t <= t0 {
        p0
    } else {
        Vec2 {
            x: (p0.x + sp_lerp_off(p0.x as int, p1.x as int, t0 as int, t1 as int, t as int))
                as i64,
            y: (p0.y + sp_lerp_off(p0.y as int, p1.y as int, t0 as int, t1 as int, t as int))
                as i64,
        }
    }
}

/// The signed offset a coordinate has covered by `t`.
pub open spec fn sp_lerp_off(a: int, b: int, t0: int, t1: int, t: int) -> int {
    if b >= a {
        (b - a) * (t - t0) / (t1 - t0)
    } else {
        -((a - b) * (t - t0) / (t1 - t0))
    }
}

/// Computes `sp_lerp` exactly.
pub fn lerp(p0: Vec2, t0: u64, p1: Vec2, t1: u64, t: u64) -> (r: Vec2)
    requires
        -MAX_COORD <= p0.x <= MAX_COORD,
        -MAX_COORD <= p0.y <= MAX_COORD,
        -MAX_COORD <= p1.x <= MAX_COORD,
        -MAX_COORD <= p1.y <= MAX_COORD,
    ensures
        r == sp_lerp(p0, t0, p1, t1, t),
{
    if t1 <= t0 || t >= t1 {
        return p1;
    }
    if t <= t0 {
        return p0;
    }
    let x = lerp_coord(p0.x, p1.x, t0, t1, t);
    let y = lerp_coord(p0.y, p1.y, t0, t1, t);
    Vec2 { x, y }
}

/// One coordinate of the interpolation.
fn lerp_coord(a: i64, b: i64, t0: u64, t1: u64, t: u64) -> (r: i64)
    requires
        -MAX_COORD <= a <= MAX_COORD,
        -MAX_COORD <= b <= MAX_COORD,
        t0 < t < t1,
    ensures
        r as int == a + sp_lerp_off(a as int, b as int, t0 as int, t1 as int, t as int),
{
    let num: u64 = t - t0;
    let den: u64 = t1 - t0;
    if b >= a {
        let d: u64 = (b - a) as u64;
        let off = scaled_offset(d, num, den);
        a + (off as i64)
    } else {
        let d: u64 = (a - b) as u64;
        let off = scaled_offset(d, num, den);
        a - (off as i64)
    }
}

/// The part of a distance covered after `num` of `den` time units.
fn scaled_offset(d: u64, num: u64, den: u64) -> (r: u64)
    requires
        0 < den,
        num <= den,
        d <= 4_000_000_000,
    ensures
        r as int == (d as int) * (num as int) / (den as int),
        r <= d,
{
    proof {
        assert((d as int) * (num as int) <= (4_000_000_000int) * (
        18_446_744_073_709_551_615int)) by (nonlinear_arith)
            requires
                0 <= d <= 4_000_000_000,
                0 <= num <= 18_446_744_073_709_551_615,
        ;
        assert((d as int) * (num as int) <= (d as int) * (den as int)) by (nonlinear_arith)
            requires
                0 <= num <= den,
                d >= 0,
        ;
        vstd::arithmetic::div_mod::lemma_div_is_ordered(
            (d as int) * (num as int),
            (d as int) * (den as int),
            den as int,
        );
        vstd::arithmetic::div_mod::lemma_div_multiples_vanish(d as int, den as int);
        assert((den as int) * (d as int) == (d as int) * (den as int)) by (nonlinear_arith);
    }
    let off_wide: u128 = (d as u128) * (num as u128) / (den as u128);
    assert(off_wide <= d);
    off_wide as u64
}

/// The snapshot store of the client: one two-slot record per remote entity.
pub struct ClientReconciler {
    pub snapshots: Table<Interpolated>,
}

impl ClientReconciler {
    pub open spec fn wf(self) -> bool {
        self.snapshots.wf()
    }

    pub fn new() -> (r: ClientReconciler)
        ensures
            r.wf(),
            r.snapshots@ == Seq::<(EntityId, Interpolated)>::empty(),
    {
        ClientReconciler { snapshots: Table::new() }
    }

    /// Merges one received entity state. A first sighting fills both slots;
    /// a newer state shifts current into previous; a state older than the
    /// stored current is discarded, so interpolation can never move
    /// backward.
    pub fn receive_state(&mut self, id: EntityId, time_ms: u64, body: Body)
        requires
            old(self).wf(),
        ensures
            final(self).wf(),
            !has_key(old(self).snapshots@, id) ==> final(self).snapshots@ == old(
                self,
            ).snapshots@.push(
                (
                    id,
                    Interpolated {
                        previous_time: time_ms,
                        current_time: time_ms,
                        previous: Some(body),
                        current: Some(body),
                    },
                ),
            ),
            has_key(old(self).snapshots@, id) && time_ms < value_of(
                old(self).snapshots@,
                id,
            ).current_time ==> final(self).snapshots@ == old(self).snapshots@,
            has_key(old(self).snapshots@, id) && time_ms >= value_of(
                old(self).snapshots@,
                id,
            ).current_time ==> final(self).snapshots@ == old(self).snapshots@.update(
                index_of(old(self).snapshots@, id),
                (
                    id,
                    Interpolated {
                        previous_time: value_of(old(self).snapshots@, id).current_time,
                        current_time: time_ms,
                        previous: value_of(old(self).snapshots@, id).current,
                        current: Some(body),
                    },
                ),
            ),
    {
        let existing = match self.snapshots.get(id) {
            Some(s) => Some(*s),
            None => None,
        };
        match existing {
            None => {
                self.snapshots.insert(id, Interpolated::new(time_ms, Some(body)));
            },
            Some(s) => {
                if time_ms >= s.current_time {
                    let shifted = Interpolated {
                        previous_time: s.current_time,
                        current_time: time_ms,
                        previous: s.current,
                        current: Some(body),
                    };
                    let was = self.snapshots.set(id, shifted);
                    assert(was);
                }
            },
        }
    }

    /// The interpolated position of an entity at render time `t`, clamped to
    /// the snapshot interval; unknown entities, and entities whose stored
    /// bodies are out of world bounds, yield nothing.
    pub fn position_at(&self, id: EntityId, t_ms: u64) -> (r: Option<Vec2>)
        requires
            self.wf(),
        ensures
            ({
                let known = has_key(self.snapshots@, id);
                let s = value_of(self.snapshots@, id);
                if known && s.previous is Some && s.current is Some && s.previous->0.bounded()
                    && s.current->0.bounded() {
                    r == Some(
                        sp_lerp(
                            s.previous->0.position,
                            s.previous_time,
                            s.current->0.position,
                            s.current_time,
                            t_ms,
                        ),
                    )
                } else {
                    r is None
                }
            }),
    {
        let s = match self.snapshots.get(id) {
            Some(s) => *s,
            None => { return None },
        };
        let (p, c) = match (s.previous, s.current) {
            (Some(p), Some(c)) => (p, c),
            _ => { return None },
        };
        let p_ok = p.position.x >= -MAX_COORD && p.position.x <= MAX_COORD && p.position.y
            >= -MAX_COORD && p.position.y <= MAX_COORD && p.velocity.x >= -MAX_COORD
            && p.velocity.x <= MAX_COORD && p.velocity.y >= -MAX_COORD && p.velocity.y
            <= MAX_COORD && p.force.x >= -crate::game::data::MAX_FORCE && p.force.x
            <= crate::game::data::MAX_FORCE && p.force.y >= -crate::game::data::MAX_FORCE
            && p.force.y <= crate::game::data::MAX_FORCE && p.mass > 0 && p.mass
            <= crate::game::data::MAX_MASS;
        let c_ok = c.position.x >= -MAX_COORD && c.position.x <= MAX_COORD && c.position.y
            >= -MAX_COORD && c.position.y <= MAX_COORD && c.velocity.x >= -MAX_COORD
            && c.velocity.x <= MAX_COORD && c.velocity.y >= -MAX_COORD && c.velocity.y
            <= MAX_COORD && c.force.x >= -crate::game::data::MAX_FORCE && c.force.x
            <= crate::game::data::MAX_FORCE && c.force.y >= -crate::game::data::MAX_FORCE
            && c.force.y <= crate::game::data::MAX_FORCE && c.mass > 0 && c.mass
            <= crate::game::data::MAX_MASS;
        if !p_ok || !c_ok {
            return None;
        }
        Some(lerp(p.position, s.previous_time, c.position, s.current_time, t_ms))
    }
}

} // verus!
