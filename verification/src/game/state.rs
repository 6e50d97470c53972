//! The authoritative game state: one tick runs the systems in their fixed
//! order over the entity store, then applies all deferred destruction in one
//! sweep, so every system observes the same pre-destruction world.

use vstd::prelude::*;

use crate::game::data::{
    sp_at_rest, Body, EntityId, Maneuver, ManeuverData, Vec2, MILLI,
};
use crate::game::entities::{has_key, value_of, Entities, Entity};
use crate::game::systems::{
    apply_gravity, apply_maneuvers, bodies_bounded, check_collisions, maneuvers_bounded,
    move_bodies, planets_bounded, sp_collided, sp_expired, sp_gravity, sp_maneuvers, sp_move,
    MAX_TICK_MS,
};

verus! {

/// What is left of a table after every entity on the pending-destroy list
/// was removed; order among survivors is kept.
pub open spec fn sp_sweep<T>(s: Seq<(EntityId, T)>, ids: Seq<EntityId>) -> Seq<(EntityId, T)> {
    s.filter(|e: (EntityId, T)| !ids.contains(e.0))
}

/// Destroying one more id filters exactly that id out of the sweep so far.
proof fn lemma_sweep_snoc<T>(s: Seq<(EntityId, T)>, ids: Seq<EntityId>, id: EntityId)
    ensures
        sp_sweep(s, ids).filter(|e: (EntityId, T)| e.0 != id) == sp_sweep(s, ids.push(id)),
    decreases s.len(),
{
    reveal(Seq::filter);
    if s.len() == 0 {
        assert(sp_sweep(s, ids).filter(|e: (EntityId, T)| e.0 != id) =~= sp_sweep(
            s,
            ids.push(id),
        ));
    } else {
        lemma_sweep_snoc(s.drop_last(), ids, id);
        let last = s.last();
        assert(ids.push(id).contains(last.0) == (ids.contains(last.0) || last.0 == id)) by {
            if ids.contains(last.0) {
                let i = choose|i: int| 0 <= i < ids.len() && ids[i] == last.0;
                assert(ids.push(id)[i] == last.0);
            }
            if last.0 == id {
                assert(ids.push(id)[ids.len() as int] == last.0);
            }
            if ids.push(id).contains(last.0) {
                let i = choose|i: int|
                    0 <= i < ids.push(id).len() && ids.push(id)[i] == last.0;
                if i < ids.len() {
                    assert(ids[i] == last.0);
                }
            }
        }
        assert(sp_sweep(s, ids).drop_last() == sp_sweep(s.drop_last(), ids) || sp_sweep(s, ids)
            == sp_sweep(s.drop_last(), ids));
        if !ids.contains(last.0) {
            assert(sp_sweep(s, ids) == sp_sweep(s.drop_last(), ids).push(last));
            assert(sp_sweep(s.drop_last(), ids).push(last).drop_last() == sp_sweep(
                s.drop_last(),
                ids,
            ));
            assert(sp_sweep(s.drop_last(), ids).push(last).last() == last);
        }
        assert(sp_sweep(s, ids).filter(|e: (EntityId, T)| e.0 != id) =~= sp_sweep(
            s,
            ids.push(id),
        ));
    }
}

/// Sweeping an empty pending list keeps every entry.
proof fn lemma_sweep_empty<T>(s: Seq<(EntityId, T)>, ids: Seq<EntityId>)
    requires
        ids.len() == 0,
    ensures
        sp_sweep(s, ids) == s,
    decreases s.len(),
{
    reveal(Seq::filter);
    if s.len() == 0 {
        assert(sp_sweep(s, ids) =~= s);
    } else {
        lemma_sweep_empty(s.drop_last(), ids);
        assert(!ids.contains(s.last().0));
        assert(sp_sweep(s, ids) =~= s);
    }
}

/// A swept id is gone.
pub proof fn lemma_sweep_removes<T>(s: Seq<(EntityId, T)>, ids: Seq<EntityId>, id: EntityId)
    requires
        ids.contains(id),
    ensures
        !has_key(sp_sweep(s, ids), id),
    decreases s.len(),
{
    reveal(Seq::filter);
    if s.len() > 0 {
        lemma_sweep_removes(s.drop_last(), ids, id);
        let f = sp_sweep(s, ids);
        let fd = sp_sweep(s.drop_last(), ids);
        assert forall|i: int| 0 <= i < f.len() implies (#[trigger] f[i]).0 != id by {
            if !ids.contains(s.last().0) && i == f.len() - 1 {
                assert(f[i] == s.last());
            } else {
                assert(f[i] == fd[i]);
                assert(!has_key(fd, id));
            }
        }
    }
}

/// A body that collided is on the collision list.
pub proof fn lemma_collided_contains(
    bodies: Seq<(EntityId, Body)>,
    planets: Seq<(EntityId, crate::game::data::Planet)>,
    i: int,
)
    requires
        0 <= i < bodies.len(),
        crate::game::systems::sp_hit(bodies[i].1, planets),
    ensures
        sp_collided(bodies, planets).contains(bodies[i].0),
    decreases bodies.len(),
{
    reveal(Seq::filter);
    let pred = |e: (EntityId, Body)| crate::game::systems::sp_hit(e.1, planets);
    bodies.filter_lemma(pred);
    assert(bodies.filter(pred).contains(bodies[i]));
    let j = choose|j: int|
        0 <= j < bodies.filter(pred).len() && bodies.filter(pred)[j] == bodies[i];
    assert(crate::game::entities::keys_of(bodies.filter(pred))[j] == bodies[i].0);
}

/// The clamping the scheduler applies to a requested maneuver: thrust and
/// direction components held to `[-MILLI, MILLI]`, the duration held so the
/// end time exists.
pub open spec fn sp_clamp_maneuver(data: ManeuverData) -> ManeuverData {
    ManeuverData {
        start_ms: data.start_ms,
        duration_ms: if data.duration_ms > u64::MAX - data.start_ms {
            (u64::MAX - data.start_ms) as u64
        } else {
            data.duration_ms
        },
        direction: Vec2 {
            x: crate::game::systems::sp_clamp(data.direction.x as int, MILLI as int) as i64,
            y: crate::game::systems::sp_clamp(data.direction.y as int, MILLI as int) as i64,
        },
        thrust: crate::game::systems::sp_clamp(data.thrust as int, MILLI as int) as i64,
    }
}

/// How much simulated time one tick covers: the wall-clock step, never
/// negative and never more than `MAX_TICK_MS`.
pub open spec fn sp_dt(last_ms: u64, now_ms: u64) -> u64 {
    if now_ms < last_ms {
        0
    } else if now_ms - last_ms > MAX_TICK_MS {
        MAX_TICK_MS
    } else {
        (now_ms - last_ms) as u64
    }
}

/// The bodies table after the three mutating systems of one tick ran, before
/// the destruction sweep.
pub open spec fn sp_tick_bodies(
    bodies: Seq<(EntityId, Body)>,
    planets: Seq<(EntityId, crate::game::data::Planet)>,
    maneuvers: Seq<(EntityId, Maneuver)>,
    now_ms: u64,
    dt_ms: u64,
) -> Seq<(EntityId, Body)> {
    sp_move(sp_maneuvers(sp_gravity(bodies, planets), maneuvers, now_ms), dt_ms)
}

/// The tick's whole pending-destroy list: expired maneuvers first, then
/// collided bodies.
pub open spec fn sp_tick_dead(
    bodies: Seq<(EntityId, Body)>,
    planets: Seq<(EntityId, crate::game::data::Planet)>,
    maneuvers: Seq<(EntityId, Maneuver)>,
    now_ms: u64,
    dt_ms: u64,
) -> Seq<EntityId> {
    sp_expired(maneuvers, now_ms) + sp_collided(
        sp_tick_bodies(bodies, planets, maneuvers, now_ms, dt_ms),
        planets,
    )
}

/// Law: a body that a tick's collision check catches stands on that tick's
/// pending-destroy list, and the sweep leaves it in no table — so the ship
/// is absent from the next export, whose rows mirror the ships table.
pub proof fn lemma_collision_destroys<T>(
    bodies: Seq<(EntityId, Body)>,
    planets: Seq<(EntityId, crate::game::data::Planet)>,
    maneuvers: Seq<(EntityId, Maneuver)>,
    now_ms: u64,
    dt_ms: u64,
    i: int,
    table: Seq<(EntityId, T)>,
)
    requires
        0 <= i < sp_tick_bodies(bodies, planets, maneuvers, now_ms, dt_ms).len(),
        crate::game::systems::sp_hit(
            sp_tick_bodies(bodies, planets, maneuvers, now_ms, dt_ms)[i].1,
            planets,
        ),
    ensures
        sp_tick_dead(bodies, planets, maneuvers, now_ms, dt_ms).contains(
            sp_tick_bodies(bodies, planets, maneuvers, now_ms, dt_ms)[i].0,
        ),
        !has_key(
            sp_sweep(table, sp_tick_dead(bodies, planets, maneuvers, now_ms, dt_ms)),
            sp_tick_bodies(bodies, planets, maneuvers, now_ms, dt_ms)[i].0,
        ),
{
    let moved = sp_tick_bodies(bodies, planets, maneuvers, now_ms, dt_ms);
    let id = moved[i].0;
    lemma_collided_contains(moved, planets, i);
    let collided = sp_collided(moved, planets);
    let expired = sp_expired(maneuvers, now_ms);
    let dead = sp_tick_dead(bodies, planets, maneuvers, now_ms, dt_ms);
    let j = choose|j: int| 0 <= j < collided.len() && collided[j] == id;
    assert(dead[expired.len() + j] == id);
    assert(dead.contains(id));
    lemma_sweep_removes(table, dead, id);
}

/// The authoritative world and its tick loop state.
pub struct GameState {
    pub entities: Entities,
    pub to_destroy: Vec<EntityId>,
    pub last_update_ms: u64,
}

impl GameState {
    /// Between ticks: the store is well-formed, all world quantities are in
    /// bounds, and no destruction is pending.
    pub open spec fn wf(self) -> bool {
        &&& self.entities.wf()
        &&& bodies_bounded(self.entities.bodies@)
        &&& planets_bounded(self.entities.planets@)
        &&& maneuvers_bounded(self.entities.maneuvers@)
        &&& self.to_destroy@.len() == 0
    }

    pub fn new() -> (r: GameState)
        ensures
            r.wf(),
            r.entities.spec_next_id() == 0,
            r.entities.ships@.len() == 0,
            r.entities.bodies@.len() == 0,
            r.entities.planets@.len() == 0,
            r.entities.maneuvers@.len() == 0,
            r.entities.broadcasts@.len() == 0,
            r.last_update_ms == 0,
    {
        GameState { entities: Entities::new(), to_destroy: Vec::new(), last_update_ms: 0 }
    }

    /// A player entered: a ship with a fresh id appears, at rest at the
    /// origin.
    pub fn on_enter(&mut self) -> (id: EntityId)
        requires
            old(self).wf(),
            old(self).entities.spec_next_id() < EntityId::MAX,
        ensures
            final(self).wf(),
            id == old(self).entities.spec_next_id(),
            final(self).entities.ships@ == old(self).entities.ships@.push(
                (id, crate::game::data::Ship),
            ),
            final(self).entities.bodies@ == old(self).entities.bodies@.push(
                (id, sp_at_rest()),
            ),
            final(self).entities.planets@ == old(self).entities.planets@,
            final(self).entities.maneuvers@ == old(self).entities.maneuvers@,
            final(self).entities.broadcasts@ == old(self).entities.broadcasts@,
            final(self).entities.spec_next_id() == old(self).entities.spec_next_id() + 1,
            final(self).to_destroy@ == old(self).to_destroy@,
            final(self).last_update_ms == old(self).last_update_ms,
    {
        self.entities.create_ship(Body::at_rest())
    }

    /// A player left: the ship and everything hanging off its id vanish, as
    /// on timeout eviction.
    pub fn on_leave(&mut self, ship_id: EntityId)
        requires
            old(self).wf(),
        ensures
            final(self).wf(),
            final(self).entities.ships@ == old(self).entities.ships@.filter(
                |e: (EntityId, crate::game::data::Ship)| e.0 != ship_id,
            ),
            final(self).entities.bodies@ == old(self).entities.bodies@.filter(
                |e: (EntityId, Body)| e.0 != ship_id,
            ),
            final(self).entities.maneuvers@ == old(self).entities.maneuvers@.filter(
                |e: (EntityId, Maneuver)| e.0 != ship_id,
            ),
            final(self).entities.broadcasts@ == old(self).entities.broadcasts@.filter(
                |e: (EntityId, crate::game::data::Broadcast)| e.0 != ship_id,
            ),
            final(self).entities.planets@ == old(self).entities.planets@.filter(
                |e: (EntityId, crate::game::data::Planet)| e.0 != ship_id,
            ),
            final(self).entities.spec_next_id() == old(self).entities.spec_next_id(),
            final(self).to_destroy@ == old(self).to_destroy@,
            final(self).last_update_ms == old(self).last_update_ms,
    {
        proof {
            lemma_filter_keeps_bodies_bounded(self.entities.bodies@, ship_id);
            lemma_filter_keeps_planets_bounded(self.entities.planets@, ship_id);
            lemma_filter_keeps_maneuvers_bounded(self.entities.maneuvers@, ship_id);
        }
        self.entities.destroy_entity(ship_id);
    }

    /// Schedules a thrust maneuver for a ship. The requested thrust and
    /// direction are clamped into throttle limits before anything is stored.
    pub fn on_schedule_maneuver(&mut self, ship_id: EntityId, data: ManeuverData) -> (id:
        EntityId)
        requires
            old(self).wf(),
            old(self).entities.spec_next_id() < EntityId::MAX,
        ensures
            final(self).wf(),
            id == old(self).entities.spec_next_id(),
            final(self).entities.maneuvers@ == old(self).entities.maneuvers@.push(
                (id, Maneuver { ship_id, data: sp_clamp_maneuver(data) }),
            ),
            final(self).entities.bodies@ == old(self).entities.bodies@,
            final(self).entities.ships@ == old(self).entities.ships@,
            final(self).entities.planets@ == old(self).entities.planets@,
            final(self).entities.broadcasts@ == old(self).entities.broadcasts@,
            final(self).entities.spec_next_id() == old(self).entities.spec_next_id() + 1,
            final(self).to_destroy@ == old(self).to_destroy@,
            final(self).last_update_ms == old(self).last_update_ms,
    {
        let duration_ms = if data.duration_ms > u64::MAX - data.start_ms {
            u64::MAX - data.start_ms
        } else {
            data.duration_ms
        };
        let dx = if data.direction.x > MILLI {
            MILLI
        } else if data.direction.x < -MILLI {
            -MILLI
        } else {
            data.direction.x
        };
        let dy = if data.direction.y > MILLI {
            MILLI
        } else if data.direction.y < -MILLI {
            -MILLI
        } else {
            data.direction.y
        };
        let thrust = if data.thrust > MILLI {
            MILLI
        } else if data.thrust < -MILLI {
            -MILLI
        } else {
            data.thrust
        };
        let clamped = ManeuverData {
            start_ms: data.start_ms,
            duration_ms,
            direction: Vec2 { x: dx, y: dy },
            thrust,
        };
        assert(clamped == sp_clamp_maneuver(data));
        assert(clamped.bounded());
        self.entities.create_maneuver(Maneuver { ship_id, data: clamped })
    }

    /// Cancels a maneuver, but only for the client that owns it: a cancel
    /// naming another ship's maneuver, or no maneuver at all, changes
    /// nothing.
    pub fn on_cancel_maneuver(&mut self, requester: EntityId, maneuver_id: EntityId)
        requires
            old(self).wf(),
        ensures
            final(self).wf(),
            ({
                let owned = has_key(old(self).entities.maneuvers@, maneuver_id) && value_of(
                    old(self).entities.maneuvers@,
                    maneuver_id,
                ).ship_id == requester;
                if owned {
                    final(self).entities.maneuvers@ == old(self).entities.maneuvers@.filter(
                        |e: (EntityId, Maneuver)| e.0 != maneuver_id,
                    )
                } else {
                    final(self).entities.maneuvers@ == old(self).entities.maneuvers@
                }
            }),
            final(self).entities.bodies@ == old(self).entities.bodies@,
            final(self).entities.ships@ == old(self).entities.ships@,
            final(self).entities.planets@ == old(self).entities.planets@,
            final(self).entities.broadcasts@ == old(self).entities.broadcasts@,
            final(self).entities.spec_next_id() == old(self).entities.spec_next_id(),
            final(self).to_destroy@ == old(self).to_destroy@,
            final(self).last_update_ms == old(self).last_update_ms,
    {
        let owned = match self.entities.maneuvers.get(maneuver_id) {
            Some(m) => m.ship_id == requester,
            None => false,
        };
        if owned {
            proof {
                lemma_filter_keeps_maneuvers_bounded(self.entities.maneuvers@, maneuver_id);
            }
            self.entities.maneuvers.remove(maneuver_id);
            proof {
                crate::game::entities::lemma_filter_is_subset(
                    old(self).entities.maneuvers@,
                    |e: (EntityId, Maneuver)| e.0 != maneuver_id,
                );
                assert forall|i: int|
                    0 <= i < self.entities.maneuvers@.len() implies (
                #[trigger] self.entities.maneuvers@[i]).0 < self.entities.spec_next_id() by {
                    assert(old(self).entities.maneuvers@.contains(self.entities.maneuvers@[i]));
                    let j = choose|j: int|
                        0 <= j < old(self).entities.maneuvers@.len() && old(
                            self,
                        ).entities.maneuvers@[j] == self.entities.maneuvers@[i];
                }
            }
        }
    }

    /// One tick: gravity, scheduled thrust, integration and collision
    /// detection run in their fixed order over the same pre-destruction
    /// world; then every entity marked for destruction is removed in one
    /// sweep.
    pub fn on_update(&mut self, now_ms: u64)
        requires
            old(self).wf(),
        ensures
            final(self).wf(),
            ({
                let dt = sp_dt(old(self).last_update_ms, now_ms);
                let bodies1 = sp_tick_bodies(
                    old(self).entities.bodies@,
                    old(self).entities.planets@,
                    old(self).entities.maneuvers@,
                    now_ms,
                    dt,
                );
                let dead = sp_tick_dead(
                    old(self).entities.bodies@,
                    old(self).entities.planets@,
                    old(self).entities.maneuvers@,
                    now_ms,
                    dt,
                );
                &&& final(self).entities.bodies@ == sp_sweep(bodies1, dead)
                &&& final(self).entities.ships@ == sp_sweep(old(self).entities.ships@, dead)
                &&& final(self).entities.maneuvers@ == sp_sweep(
                    old(self).entities.maneuvers@,
                    dead,
                )
                &&& final(self).entities.broadcasts@ == sp_sweep(
                    old(self).entities.broadcasts@,
                    dead,
                )
                &&& final(self).entities.planets@ == sp_sweep(old(self).entities.planets@, dead)
            }),
            final(self).entities.spec_next_id() == old(self).entities.spec_next_id(),
            final(self).to_destroy@.len() == 0,
            final(self).last_update_ms == now_ms,
    {
        let dt = if now_ms < self.last_update_ms {
            0
        } else if now_ms - self.last_update_ms > MAX_TICK_MS {
            MAX_TICK_MS
        } else {
            now_ms - self.last_update_ms
        };
        assert(dt == sp_dt(self.last_update_ms, now_ms));
        apply_gravity(&mut self.entities);
        apply_maneuvers(&mut self.entities, &mut self.to_destroy, now_ms);
        move_bodies(&mut self.entities, dt);
        check_collisions(&self.entities, &mut self.to_destroy);
        let ghost dead = sp_tick_dead(
            old(self).entities.bodies@,
            old(self).entities.planets@,
            old(self).entities.maneuvers@,
            now_ms,
            dt,
        );
        assert(self.to_destroy@ == dead);
        let ghost mid_bodies = self.entities.bodies@;
        let ghost mid_ships = self.entities.ships@;
        let ghost mid_maneuvers = self.entities.maneuvers@;
        let ghost mid_broadcasts = self.entities.broadcasts@;
        let ghost mid_planets = self.entities.planets@;
        let mut ids: Vec<EntityId> = Vec::new();
        core::mem::swap(&mut ids, &mut self.to_destroy);
        let n = ids.len();
        let mut j: usize = 0;
        proof {
            assert(dead.take(0).len() == 0);
            lemma_sweep_empty(mid_bodies, dead.take(0));
            lemma_sweep_empty(mid_ships, dead.take(0));
            lemma_sweep_empty(mid_maneuvers, dead.take(0));
            lemma_sweep_empty(mid_broadcasts, dead.take(0));
            lemma_sweep_empty(mid_planets, dead.take(0));
        }
        while j < n
            invariant
                j <= n,
                n == dead.len(),
                ids@ == dead,
                self.entities.wf(),
                bodies_bounded(self.entities.bodies@),
                planets_bounded(self.entities.planets@),
                maneuvers_bounded(self.entities.maneuvers@),
                self.entities.bodies@ == sp_sweep(mid_bodies, dead.take(j as int)),
                self.entities.ships@ == sp_sweep(mid_ships, dead.take(j as int)),
                self.entities.maneuvers@ == sp_sweep(mid_maneuvers, dead.take(j as int)),
                self.entities.broadcasts@ == sp_sweep(mid_broadcasts, dead.take(j as int)),
                self.entities.planets@ == sp_sweep(mid_planets, dead.take(j as int)),
                self.entities.spec_next_id() == old(self).entities.spec_next_id(),
                self.to_destroy@.len() == 0,
                self.last_update_ms == old(self).last_update_ms,
            decreases n - j,
        {
            let id = ids[j];
            proof {
                lemma_filter_keeps_bodies_bounded(self.entities.bodies@, id);
                lemma_filter_keeps_planets_bounded(self.entities.planets@, id);
                lemma_filter_keeps_maneuvers_bounded(self.entities.maneuvers@, id);
            }
            self.entities.destroy_entity(id);
            proof {
                lemma_sweep_snoc(mid_bodies, dead.take(j as int), id);
                lemma_sweep_snoc(mid_ships, dead.take(j as int), id);
                lemma_sweep_snoc(mid_maneuvers, dead.take(j as int), id);
                lemma_sweep_snoc(mid_broadcasts, dead.take(j as int), id);
                lemma_sweep_snoc(mid_planets, dead.take(j as int), id);
                assert(dead.take(j as int).push(id) =~= dead.take(j as int + 1));
            }
            j += 1;
        }
        proof {
            assert(dead.take(n as int) =~= dead);
        }
        self.last_update_ms = now_ms;
    }

    /// The per-tick snapshot handed to dissemination: one row per ship, in
    /// table order, carrying exactly the ship's stored body and broadcast.
    pub fn export_entities(&self) -> (r: Vec<Entity>)
        requires
            self.wf(),
        ensures
            r@.len() == self.entities.ships@.len(),
            forall|k: int|
                0 <= k < r@.len() ==> {
                    &&& (#[trigger] r@[k]).id == self.entities.ships@[k].0
                    &&& (r@[k].body is Some <==> has_key(
                        self.entities.bodies@,
                        self.entities.ships@[k].0,
                    ))
                    &&& (r@[k].body matches Some(b) ==> b == value_of(
                        self.entities.bodies@,
                        self.entities.ships@[k].0,
                    ))
                    &&& (r@[k].broadcast is Some <==> has_key(
                        self.entities.broadcasts@,
                        self.entities.ships@[k].0,
                    ))
                    &&& (r@[k].broadcast matches Some(bc) ==> bc.sender == value_of(
                        self.entities.broadcasts@,
                        self.entities.ships@[k].0,
                    ).sender && bc.message@ == value_of(
                        self.entities.broadcasts@,
                        self.entities.ships@[k].0,
                    ).message@)
                },
    {
        self.entities.export_entities()
    }
}

proof fn lemma_filter_keeps_bodies_bounded(s: Seq<(EntityId, Body)>, id: EntityId)
    requires
        bodies_bounded(s),
    ensures
        bodies_bounded(s.filter(|e: (EntityId, Body)| e.0 != id)),
{
    let pred = |e: (EntityId, Body)| e.0 != id;
    crate::game::entities::lemma_filter_is_subset(s, pred);
    assert forall|i: int| 0 <= i < s.filter(pred).len() implies (#[trigger] s.filter(
        pred,
    )[i]).1.bounded() by {
        assert(s.contains(s.filter(pred)[i]));
        let j = choose|j: int| 0 <= j < s.len() && s[j] == s.filter(pred)[i];
        assert(s[j].1.bounded());
    }
}

proof fn lemma_filter_keeps_planets_bounded(
    s: Seq<(EntityId, crate::game::data::Planet)>,
    id: EntityId,
)
    requires
        planets_bounded(s),
    ensures
        planets_bounded(s.filter(|e: (EntityId, crate::game::data::Planet)| e.0 != id)),
{
    let pred = |e: (EntityId, crate::game::data::Planet)| e.0 != id;
    crate::game::entities::lemma_filter_is_subset(s, pred);
    assert forall|i: int| 0 <= i < s.filter(pred).len() implies (#[trigger] s.filter(
        pred,
    )[i]).1.bounded() by {
        assert(s.contains(s.filter(pred)[i]));
        let j = choose|j: int| 0 <= j < s.len() && s[j] == s.filter(pred)[i];
        assert(s[j].1.bounded());
    }
}

proof fn lemma_filter_keeps_maneuvers_bounded(s: Seq<(EntityId, Maneuver)>, id: EntityId)
    requires
        maneuvers_bounded(s),
    ensures
        maneuvers_bounded(s.filter(|e: (EntityId, Maneuver)| e.0 != id)),
{
    let pred = |e: (EntityId, Maneuver)| e.0 != id;
    crate::game::entities::lemma_filter_is_subset(s, pred);
    assert forall|i: int| 0 <= i < s.filter(pred).len() implies (#[trigger] s.filter(
        pred,
    )[i]).1.data.bounded() by {
        assert(s.contains(s.filter(pred)[i]));
        let j = choose|j: int| 0 <= j < s.len() && s[j] == s.filter(pred)[i];
        assert(s[j].1.data.bounded());
    }
}

} // verus!
