//! The server's client registry and sequencer: network address to session,
//! freshness and confirmation advancement, step application, timeout
//! eviction.
//!
//! Addresses arrive as plain numbers; whatever socket type the transport
//! uses, the caller maps each distinct peer address to a distinct number.

use vstd::prelude::*;

use crate::game::data::{sp_at_rest, Broadcast, EntityId, Maneuver, Ship};
use crate::game::entities::{has_key, index_of, lemma_value_of_unique, value_of, Table};
use crate::game::state::{sp_clamp_maneuver, GameState};
use crate::protocol::{
    broadcast_admissible, sp_broadcast_admissible, Action, SeqNum, Step, StepView,
};

verus! {

/// A peer's transport address, reduced to a number by the caller.
pub type Address = u64;

/// What the server keeps per connected client.
#[derive(Clone, Copy, Debug, PartialEq, Eq, Structural)]
pub struct ClientSession {
    /// The ship entity this session owns.
    pub id: EntityId,
    /// When the client was last heard from, against the server clock.
    pub last_active_ms: u64,
    /// The highest action sequence number processed from this client; never
    /// moves backward.
    pub last_confirmed_seq: SeqNum,
    /// Whether the client currently has a live broadcast; its text lives in
    /// the entity store under the ship's id.
    pub broadcasting: bool,
}

/// Confirmation advancement: to the incoming sequence number if it is newer,
/// never backward, so replayed stale packets cannot regress confirmation.
pub open spec fn sp_confirm(current: SeqNum, incoming: SeqNum) -> SeqNum {
    if incoming > current {
        incoming
    } else {
        current
    }
}

/// Law: confirmation never regresses, and two sequence numbers processed in
/// either order leave the same confirmation: the larger of the two.
pub proof fn lemma_confirmation_commutes(c: SeqNum, s1: SeqNum, s2: SeqNum)
    ensures
        sp_confirm(c, s1) >= c,
        sp_confirm(sp_confirm(c, s1), s2) == sp_confirm(sp_confirm(c, s2), s1),
        s1 < s2 ==> sp_confirm(sp_confirm(c, s1), s2) == sp_confirm(c, s2),
{
}

/// Whether a session has been silent past the timeout.
pub open spec fn sp_timed_out(s: ClientSession, now_ms: u64, timeout_ms: u64) -> bool {
    now_ms > s.last_active_ms + timeout_ms
}

/// Whether an action asks to open a session.
pub open spec fn sp_has_login(steps: Seq<StepView>) -> bool {
    exists|i: int| 0 <= i < steps.len() && steps[i] is Login
}

/// A broadcast table reduced to plain rows: the key with the sender and the
/// text it stores.
pub open spec fn sp_broadcast_rows(s: Seq<(EntityId, Broadcast)>) -> Seq<
    (EntityId, (EntityId, Seq<char>)),
> {
    s.map_values(|e: (EntityId, Broadcast)| (e.0, (e.1.sender, e.1.message@)))
}

/// The broadcast rows that do not belong to ship `sid`.
pub open spec fn sp_rows_except(sid: EntityId) -> spec_fn((EntityId, (EntityId, Seq<char>))) -> bool {
    |e: (EntityId, (EntityId, Seq<char>))| e.0 != sid
}

/// Everything step application may touch: the session's broadcast flag, the
/// broadcast and maneuver tables, and the id counter.
pub ghost struct StepWorld {
    pub broadcasting: bool,
    pub broadcasts: Seq<(EntityId, (EntityId, Seq<char>))>,
    pub maneuvers: Seq<(EntityId, Maneuver)>,
    pub next_id: int,
}

/// The effect of one step from the session owning ship `sid`: a login or
/// heartbeat changes nothing; an admissible broadcast replaces the session's
/// broadcast and marks it broadcasting (an inadmissible one is ignored);
/// stopping withdraws the broadcast; a maneuver request stores the clamped
/// maneuver under a fresh id; a cancel removes the named maneuver only when
/// this session owns it.
pub open spec fn sp_step_world(w: StepWorld, sid: EntityId, step: StepView) -> StepWorld {
    match step {
        StepView::Login => w,
        StepView::Heartbeat => w,
        StepView::Broadcast(t) => if sp_broadcast_admissible(t) {
            StepWorld {
                broadcasting: true,
                broadcasts: w.broadcasts.filter(sp_rows_except(sid)).push((sid, (sid, t))),
                maneuvers: w.maneuvers,
                next_id: w.next_id,
            }
        } else {
            w
        },
        StepView::StopBroadcast => StepWorld {
            broadcasting: false,
            broadcasts: w.broadcasts.filter(sp_rows_except(sid)),
            maneuvers: w.maneuvers,
            next_id: w.next_id,
        },
        StepView::SetManeuver(d) => StepWorld {
            broadcasting: w.broadcasting,
            broadcasts: w.broadcasts,
            maneuvers: w.maneuvers.push(
                (w.next_id as EntityId, Maneuver { ship_id: sid, data: sp_clamp_maneuver(d) }),
            ),
            next_id: w.next_id + 1,
        },
        StepView::CancelManeuver(m) => if has_key(w.maneuvers, m) && value_of(w.maneuvers, m).ship_id
            == sid {
            StepWorld {
                broadcasting: w.broadcasting,
                broadcasts: w.broadcasts,
                maneuvers: w.maneuvers.filter(|e: (EntityId, Maneuver)| e.0 != m),
                next_id: w.next_id,
            }
        } else {
            w
        },
    }
}

/// The effect of a whole step list, applied in order.
pub open spec fn sp_steps_world(w: StepWorld, sid: EntityId, steps: Seq<StepView>) -> StepWorld
    decreases steps.len(),
{
    if steps.len() == 0 {
        w
    } else {
        sp_steps_world(sp_step_world(w, sid, steps[0]), sid, steps.drop_first())
    }
}

/// Applying one more step folds onto the effect so far.
proof fn lemma_steps_world_snoc(w: StepWorld, sid: EntityId, steps: Seq<StepView>, x: StepView)
    ensures
        sp_steps_world(w, sid, steps.push(x)) == sp_step_world(
            sp_steps_world(w, sid, steps),
            sid,
            x,
        ),
    decreases steps.len(),
{
    if steps.len() == 0 {
        assert(steps.push(x)[0] == x);
        assert(steps.push(x).drop_first() =~= Seq::<StepView>::empty());
        assert(sp_steps_world(w, sid, steps.push(x)) == sp_steps_world(
            sp_step_world(w, sid, x),
            sid,
            steps.push(x).drop_first(),
        ));
        assert(sp_steps_world(sp_step_world(w, sid, x), sid, Seq::<StepView>::empty())
            == sp_step_world(w, sid, x));
        assert(sp_steps_world(w, sid, steps) == w);
    } else {
        assert(steps.push(x)[0] == steps[0]);
        assert(steps.push(x).drop_first() =~= steps.drop_first().push(x));
        assert(sp_steps_world(w, sid, steps.push(x)) == sp_steps_world(
            sp_step_world(w, sid, steps[0]),
            sid,
            steps.drop_first().push(x),
        ));
        assert(sp_steps_world(w, sid, steps) == sp_steps_world(
            sp_step_world(w, sid, steps[0]),
            sid,
            steps.drop_first(),
        ));
        lemma_steps_world_snoc(sp_step_world(w, sid, steps[0]), sid, steps.drop_first(), x);
    }
}

/// Filtering a broadcast table by key commutes with reducing it to rows.
proof fn lemma_rows_filter(s: Seq<(EntityId, Broadcast)>, id: EntityId)
    ensures
        sp_broadcast_rows(s.filter(|e: (EntityId, Broadcast)| e.0 != id)) == sp_broadcast_rows(
            s,
        ).filter(sp_rows_except(id)),
    decreases s.len(),
{
    reveal(Seq::filter);
    let pk = |e: (EntityId, Broadcast)| e.0 != id;
    let pr = sp_rows_except(id);
    if s.len() == 0 {
        assert(sp_broadcast_rows(s.filter(pk)) =~= sp_broadcast_rows(s).filter(pr));
    } else {
        lemma_rows_filter(s.drop_last(), id);
        assert(sp_broadcast_rows(s).drop_last() =~= sp_broadcast_rows(s.drop_last()));
        assert(sp_broadcast_rows(s).last() == (s.last().0, (s.last().1.sender, s.last().1.message@)));
        if pk(s.last()) {
            assert(s.filter(pk) == s.drop_last().filter(pk).push(s.last()));
            assert(sp_broadcast_rows(s.drop_last().filter(pk).push(s.last()))
                =~= sp_broadcast_rows(s.drop_last().filter(pk)).push(
                (s.last().0, (s.last().1.sender, s.last().1.message@)),
            ));
            assert(sp_broadcast_rows(s).filter(pr) == sp_broadcast_rows(s).drop_last().filter(
                pr,
            ).push(sp_broadcast_rows(s).last()));
        } else {
            assert(s.filter(pk) == s.drop_last().filter(pk));
            assert(sp_broadcast_rows(s).filter(pr) == sp_broadcast_rows(s).drop_last().filter(
                pr,
            ));
        }
    }
}

/// The address-keyed session map, owner of all per-client state.
pub struct ClientRegistry {
    pub clients: Table<ClientSession>,
}

impl ClientRegistry {
    pub open spec fn wf(self) -> bool {
        self.clients.wf()
    }

    /// Every session's ship id was assigned by the store.
    pub open spec fn ids_valid(self, state: GameState) -> bool {
        forall|k: int|
            0 <= k < self.clients@.len() ==> (#[trigger] self.clients@[k]).1.id
                < state.entities.spec_next_id()
    }

    pub fn new() -> (r: ClientRegistry)
        ensures
            r.wf(),
            r.clients@ == Seq::<(Address, ClientSession)>::empty(),
    {
        ClientRegistry { clients: Table::new() }
    }

    /// First valid login from a new address creates a session and its ship;
    /// a repeated login refreshes liveness and changes nothing else.
    pub fn login(&mut self, state: &mut GameState, address: Address, now_ms: u64) -> (id:
        EntityId)
        requires
            old(self).wf(),
            old(state).wf(),
            old(self).ids_valid(*old(state)),
            old(state).entities.spec_next_id() < EntityId::MAX,
        ensures
            final(self).wf(),
            final(state).wf(),
            final(self).ids_valid(*final(state)),
            final(state).entities.spec_next_id() >= old(state).entities.spec_next_id(),
            final(state).entities.spec_next_id() <= old(state).entities.spec_next_id() + 1,
            has_key(final(self).clients@, address),
            id == value_of(final(self).clients@, address).id,
            has_key(old(self).clients@, address) ==> {
                &&& *final(state) == *old(state)
                &&& final(self).clients@ == old(self).clients@.update(
                    index_of(old(self).clients@, address),
                    (
                        address,
                        ClientSession {
                            last_active_ms: now_ms,
                            ..value_of(old(self).clients@, address)
                        },
                    ),
                )
            },
            final(state).to_destroy@ == old(state).to_destroy@,
            final(state).last_update_ms == old(state).last_update_ms,
            !has_key(old(self).clients@, address) ==> {
                &&& id == old(state).entities.spec_next_id()
                &&& final(state).entities.spec_next_id() == old(state).entities.spec_next_id()
                    + 1
                &&& final(state).entities.ships@ == old(state).entities.ships@.push((id, Ship))
                &&& final(state).entities.bodies@ == old(state).entities.bodies@.push(
                    (id, sp_at_rest()),
                )
                &&& final(state).entities.planets@ == old(state).entities.planets@
                &&& final(state).entities.maneuvers@ == old(state).entities.maneuvers@
                &&& final(state).entities.broadcasts@ == old(state).entities.broadcasts@
                &&& final(self).clients@ == old(self).clients@.push(
                    (
                        address,
                        ClientSession {
                            id,
                            last_active_ms: now_ms,
                            last_confirmed_seq: 0,
                            broadcasting: false,
                        },
                    ),
                )
            },
    {
        let existing = match self.clients.get(address) {
            Some(c) => Some(*c),
            None => None,
        };
        match existing {
            Some(c) => {
                let ghost idx = index_of(old(self).clients@, address);
                let was = self.clients.set(
                    address,
                    ClientSession { last_active_ms: now_ms, ..c },
                );
                assert(was);
                proof {
                    lemma_value_of_unique(self.clients@, idx);
                }
                c.id
            },
            None => {
                let id = state.on_enter();
                self.clients.insert(
                    address,
                    ClientSession {
                        id,
                        last_active_ms: now_ms,
                        last_confirmed_seq: 0,
                        broadcasting: false,
                    },
                );
                proof {
                    lemma_value_of_unique(self.clients@, self.clients@.len() - 1);
                }
                id
            },
        }
    }

    /// Applies one step for a known session, exactly as `sp_step_world` says.
    /// Everything here acts on the session's own ship, so a client can never
    /// touch another client's state.
    fn apply_step(&mut self, state: &mut GameState, address: Address, step: &Step)
        requires
            old(self).wf(),
            old(state).wf(),
            old(self).ids_valid(*old(state)),
            has_key(old(self).clients@, address),
            old(state).entities.spec_next_id() < EntityId::MAX,
        ensures
            final(self).wf(),
            final(state).wf(),
            final(self).ids_valid(*final(state)),
            ({
                let prior = value_of(old(self).clients@, address);
                let w1 = sp_step_world(
                    StepWorld {
                        broadcasting: prior.broadcasting,
                        broadcasts: sp_broadcast_rows(old(state).entities.broadcasts@),
                        maneuvers: old(state).entities.maneuvers@,
                        next_id: old(state).entities.spec_next_id() as int,
                    },
                    prior.id,
                    step@,
                );
                &&& final(self).clients@ == old(self).clients@.update(
                    index_of(old(self).clients@, address),
                    (
                        address,
                        ClientSession {
                            id: prior.id,
                            last_active_ms: prior.last_active_ms,
                            last_confirmed_seq: prior.last_confirmed_seq,
                            broadcasting: w1.broadcasting,
                        },
                    ),
                )
                &&& sp_broadcast_rows(final(state).entities.broadcasts@) == w1.broadcasts
                &&& final(state).entities.maneuvers@ == w1.maneuvers
                &&& final(state).entities.spec_next_id() as int == w1.next_id
            }),
            final(state).entities.ships@ == old(state).entities.ships@,
            final(state).entities.bodies@ == old(state).entities.bodies@,
            final(state).entities.planets@ == old(state).entities.planets@,
            final(state).to_destroy@ == old(state).to_destroy@,
            final(state).last_update_ms == old(state).last_update_ms,
    {
        let ghost idx = index_of(old(self).clients@, address);
        proof {
            lemma_value_of_unique(old(self).clients@, idx);
        }
        let session = match self.clients.get(address) {
            Some(c) => *c,
            None => {
                proof {
                    assert(false);
                }
                return ;
            },
        };
        match step {
            Step::Login => {
                proof {
                    assert(step@ == StepView::Login);
                    assert(session == ClientSession {
                        id: session.id,
                        last_active_ms: session.last_active_ms,
                        last_confirmed_seq: session.last_confirmed_seq,
                        broadcasting: session.broadcasting,
                    });
                    assert(self.clients@ =~= old(self).clients@.update(
                        idx,
                        (address, session),
                    ));
                }
            },
            Step::Heartbeat => {
                proof {
                    assert(step@ == StepView::Heartbeat);
                    assert(session == ClientSession {
                        id: session.id,
                        last_active_ms: session.last_active_ms,
                        last_confirmed_seq: session.last_confirmed_seq,
                        broadcasting: session.broadcasting,
                    });
                    assert(self.clients@ =~= old(self).clients@.update(
                        idx,
                        (address, session),
                    ));
                }
            },
            Step::Broadcast(text) => {
                if broadcast_admissible(text.as_str()) {
                    state.entities.add_broadcast(session.id, text.clone());
                    let was = self.clients.set(
                        address,
                        ClientSession { broadcasting: true, ..session },
                    );
                    assert(was);
                    proof {
                        lemma_value_of_unique(self.clients@, idx);
                        lemma_rows_filter(old(state).entities.broadcasts@, session.id);
                        assert(sp_broadcast_rows(state.entities.broadcasts@)
                            =~= sp_broadcast_rows(
                            old(state).entities.broadcasts@.filter(
                                |e: (EntityId, Broadcast)| e.0 != session.id,
                            ),
                        ).push((session.id, (session.id, text@))));
                        let w0b = StepWorld {
                            broadcasting: session.broadcasting,
                            broadcasts: sp_broadcast_rows(old(state).entities.broadcasts@),
                            maneuvers: old(state).entities.maneuvers@,
                            next_id: old(state).entities.spec_next_id() as int,
                        };
                        assert(step@ == StepView::Broadcast(text@));
                        assert(sp_broadcast_admissible(text@));
                        let w1b = sp_step_world(w0b, session.id, step@);
                        assert(w1b.broadcasts == w0b.broadcasts.filter(
                            sp_rows_except(session.id),
                        ).push((session.id, (session.id, text@))));
                        assert(sp_broadcast_rows(state.entities.broadcasts@) == w1b.broadcasts);
                    }
                } else {
                    proof {
                        assert(self.clients@ =~= old(self).clients@.update(
                            idx,
                            (address, session),
                        ));
                    }
                }
            },
            Step::StopBroadcast => {
                state.entities.remove_broadcast(session.id);
                let was = self.clients.set(
                    address,
                    ClientSession { broadcasting: false, ..session },
                );
                assert(was);
                proof {
                    lemma_value_of_unique(self.clients@, idx);
                    lemma_rows_filter(old(state).entities.broadcasts@, session.id);
                    let w0s = StepWorld {
                        broadcasting: session.broadcasting,
                        broadcasts: sp_broadcast_rows(old(state).entities.broadcasts@),
                        maneuvers: old(state).entities.maneuvers@,
                        next_id: old(state).entities.spec_next_id() as int,
                    };
                    assert(step@ == StepView::StopBroadcast);
                    let w1s = sp_step_world(w0s, session.id, step@);
                    assert(w1s.broadcasts == w0s.broadcasts.filter(sp_rows_except(session.id)));
                    assert(sp_broadcast_rows(state.entities.broadcasts@) == w1s.broadcasts);
                }
            },
            Step::SetManeuver(data) => {
                let _ = state.on_schedule_maneuver(session.id, *data);
                proof {
                    assert(state.entities.broadcasts@ == old(state).entities.broadcasts@);
                    assert(sp_broadcast_rows(state.entities.broadcasts@) == sp_broadcast_rows(
                        old(state).entities.broadcasts@,
                    ));
                    assert(self.clients@ =~= old(self).clients@.update(
                        idx,
                        (address, session),
                    ));
                }
            },
            Step::CancelManeuver(maneuver_id) => {
                state.on_cancel_maneuver(session.id, *maneuver_id);
                proof {
                    assert(state.entities.broadcasts@ == old(state).entities.broadcasts@);
                    assert(sp_broadcast_rows(state.entities.broadcasts@) == sp_broadcast_rows(
                        old(state).entities.broadcasts@,
                    ));
                    assert(self.clients@ =~= old(self).clients@.update(
                        idx,
                        (address, session),
                    ));
                }
            },
        }
    }

    /// Admits or rejects one received action, as loss and attack tolerance
    /// ask: an unknown address without a login step is ignored outright; a
    /// known (or newly logged-in) session has its liveness refreshed
    /// unconditionally, its steps applied in order with exactly the effects
    /// `sp_steps_world` folds up, and its confirmation advanced
    /// monotonically.
    pub fn on_action(&mut self, state: &mut GameState, address: Address, action: &Action,
        now_ms: u64)
        requires
            old(self).wf(),
            old(state).wf(),
            old(self).ids_valid(*old(state)),
            old(state).entities.spec_next_id() + action.steps@.len() + 1 < EntityId::MAX,
        ensures
            final(self).wf(),
            final(state).wf(),
            final(self).ids_valid(*final(state)),
            !has_key(old(self).clients@, address) && !sp_has_login(action@.steps)
                ==> final(self).clients@ == old(self).clients@ && *final(state) == *old(state),
            has_key(old(self).clients@, address) || sp_has_login(action@.steps) ==> {
                &&& has_key(final(self).clients@, address)
                &&& value_of(final(self).clients@, address).last_confirmed_seq == sp_confirm(
                    if has_key(old(self).clients@, address) {
                        value_of(old(self).clients@, address).last_confirmed_seq
                    } else {
                        0
                    },
                    action.id,
                )
                &&& value_of(final(self).clients@, address).last_active_ms == now_ms
            },
            has_key(old(self).clients@, address) || sp_has_login(action@.steps) ==> ({
                let known = has_key(old(self).clients@, address);
                let sid = if known {
                    value_of(old(self).clients@, address).id
                } else {
                    old(state).entities.spec_next_id()
                };
                let prior = if known {
                    value_of(old(self).clients@, address)
                } else {
                    ClientSession {
                        id: sid,
                        last_active_ms: now_ms,
                        last_confirmed_seq: 0,
                        broadcasting: false,
                    }
                };
                let mid_clients = if known {
                    old(self).clients@
                } else {
                    old(self).clients@.push((address, prior))
                };
                let w1 = sp_steps_world(
                    StepWorld {
                        broadcasting: prior.broadcasting,
                        broadcasts: sp_broadcast_rows(old(state).entities.broadcasts@),
                        maneuvers: old(state).entities.maneuvers@,
                        next_id: old(state).entities.spec_next_id() as int + (
                        if known {
                            0int
                        } else {
                            1int
                        }),
                    },
                    sid,
                    action@.steps,
                );
                &&& final(self).clients@ == mid_clients.update(
                    index_of(mid_clients, address),
                    (
                        address,
                        ClientSession {
                            id: sid,
                            last_active_ms: now_ms,
                            last_confirmed_seq: sp_confirm(prior.last_confirmed_seq, action.id),
                            broadcasting: w1.broadcasting,
                        },
                    ),
                )
                &&& sp_broadcast_rows(final(state).entities.broadcasts@) == w1.broadcasts
                &&& final(state).entities.maneuvers@ == w1.maneuvers
                &&& final(state).entities.spec_next_id() as int == w1.next_id
                &&& final(state).entities.ships@ == (if known {
                    old(state).entities.ships@
                } else {
                    old(state).entities.ships@.push((sid, Ship))
                })
                &&& final(state).entities.bodies@ == (if known {
                    old(state).entities.bodies@
                } else {
                    old(state).entities.bodies@.push((sid, sp_at_rest()))
                })
                &&& final(state).entities.planets@ == old(state).entities.planets@
            }),
    {
        let known = self.clients.contains(address);
        let has_login = {
            let mut found = false;
            let n = action.steps.len();
            let mut k: usize = 0;
            while k < n
                invariant
                    k <= n,
                    n == action.steps@.len(),
                    found == exists|i: int|
                        0 <= i < k && (#[trigger] action.steps@[i]) is Login,
                decreases n - k,
            {
                if matches!(&action.steps[k], Step::Login) {
                    found = true;
                }
                k += 1;
            }
            proof {
                assert(forall|i: int|
                    0 <= i < action.steps@.len() ==> action@.steps[i] == (
                    #[trigger] action.steps@[i])@);
                assert(found == sp_has_login(action@.steps));
            }
            found
        };
        if !known && !has_login {
            return ;
        }
        let ghost sid_g = if known {
            value_of(old(self).clients@, address).id
        } else {
            old(state).entities.spec_next_id()
        };
        let ghost prior = if known {
            value_of(old(self).clients@, address)
        } else {
            ClientSession {
                id: sid_g,
                last_active_ms: now_ms,
                last_confirmed_seq: 0,
                broadcasting: false,
            }
        };
        let ghost mid_clients = if known {
            old(self).clients@
        } else {
            old(self).clients@.push((address, prior))
        };
        let ghost w0 = StepWorld {
            broadcasting: prior.broadcasting,
            broadcasts: sp_broadcast_rows(old(state).entities.broadcasts@),
            maneuvers: old(state).entities.maneuvers@,
            next_id: old(state).entities.spec_next_id() as int + (if known {
                0int
            } else {
                1int
            }),
        };
        if !known {
            let _ = self.login(state, address, now_ms);
            proof {
                lemma_value_of_unique(self.clients@, self.clients@.len() - 1);
            }
        }
        let ghost idx = index_of(mid_clients, address);
        let ghost mid_ships = state.entities.ships@;
        let ghost mid_bodies = state.entities.bodies@;
        let ghost mid_planets = state.entities.planets@;
        proof {
            lemma_value_of_unique(mid_clients, idx);
            assert(self.clients@ =~= mid_clients.update(idx, (address, prior)));
            assert(action@.steps.take(0) =~= Seq::<StepView>::empty());
        }
        let n = action.steps.len();
        let mut k: usize = 0;
        while k < n
            invariant
                k <= n,
                n == action.steps@.len(),
                n == action@.steps.len(),
                self.wf(),
                state.wf(),
                self.ids_valid(*state),
                0 <= idx < mid_clients.len(),
                mid_clients[idx].0 == address,
                idx == index_of(mid_clients, address),
                ({
                    let wk = sp_steps_world(w0, sid_g, action@.steps.take(k as int));
                    &&& self.clients@ == mid_clients.update(
                        idx,
                        (
                            address,
                            ClientSession {
                                id: sid_g,
                                last_active_ms: prior.last_active_ms,
                                last_confirmed_seq: prior.last_confirmed_seq,
                                broadcasting: wk.broadcasting,
                            },
                        ),
                    )
                    &&& sp_broadcast_rows(state.entities.broadcasts@) == wk.broadcasts
                    &&& state.entities.maneuvers@ == wk.maneuvers
                    &&& state.entities.spec_next_id() as int == wk.next_id
                }),
                state.entities.ships@ == mid_ships,
                state.entities.bodies@ == mid_bodies,
                state.entities.planets@ == mid_planets,
                state.to_destroy@ == old(state).to_destroy@,
                state.last_update_ms == old(state).last_update_ms,
                state.entities.spec_next_id() + (n - k) < EntityId::MAX,
            decreases n - k,
        {
            let ghost wk = sp_steps_world(w0, sid_g, action@.steps.take(k as int));
            let ghost prev_clients = self.clients@;
            proof {
                lemma_value_of_unique(prev_clients, idx);
                assert(StepWorld {
                    broadcasting: wk.broadcasting,
                    broadcasts: wk.broadcasts,
                    maneuvers: wk.maneuvers,
                    next_id: wk.next_id,
                } == wk);
            }
            let step = &action.steps[k];
            self.apply_step(state, address, step);
            proof {
                assert(action@.steps[k as int] == action.steps@[k as int]@);
                assert(action@.steps.take(k as int).push(action@.steps[k as int])
                    =~= action@.steps.take(k as int + 1));
                lemma_steps_world_snoc(w0, sid_g, action@.steps.take(k as int), step@);
                assert(index_of(prev_clients, address) == idx);
                let wk1 = sp_steps_world(w0, sid_g, action@.steps.take(k as int + 1));
                assert(self.clients@ =~= mid_clients.update(
                    idx,
                    (
                        address,
                        ClientSession {
                            id: sid_g,
                            last_active_ms: prior.last_active_ms,
                            last_confirmed_seq: prior.last_confirmed_seq,
                            broadcasting: wk1.broadcasting,
                        },
                    ),
                ));
            }
            k += 1;
        }
        proof {
            assert(action@.steps.take(n as int) =~= action@.steps);
            lemma_value_of_unique(self.clients@, idx);
        }
        let session = match self.clients.get(address) {
            Some(c) => *c,
            None => {
                proof {
                    assert(false);
                }
                return ;
            },
        };
        let confirmed = if action.id > session.last_confirmed_seq {
            action.id
        } else {
            session.last_confirmed_seq
        };
        let ghost pre_set = self.clients@;
        proof {
            lemma_value_of_unique(pre_set, idx);
        }
        let was = self.clients.set(
            address,
            ClientSession {
                last_active_ms: now_ms,
                last_confirmed_seq: confirmed,
                ..session
            },
        );
        assert(was);
        proof {
            lemma_value_of_unique(pre_set, idx);
            assert(index_of(pre_set, address) == idx);
            lemma_value_of_unique(self.clients@, idx);
            let w1 = sp_steps_world(w0, sid_g, action@.steps);
            assert(self.clients@ =~= mid_clients.update(
                idx,
                (
                    address,
                    ClientSession {
                        id: sid_g,
                        last_active_ms: now_ms,
                        last_confirmed_seq: sp_confirm(prior.last_confirmed_seq, action.id),
                        broadcasting: w1.broadcasting,
                    },
                ),
            ));
        }
    }

    /// The sessions that have been silent past the timeout, in table order,
    /// each with the ship it owns.
    pub fn timed_out_clients(&self, now_ms: u64, timeout_ms: u64) -> (r: Vec<
        (Address, EntityId),
    >)
        requires
            self.wf(),
        ensures
            forall|k: int|
                0 <= k < r@.len() ==> has_key(self.clients@, (#[trigger] r@[k]).0)
                    && sp_timed_out(value_of(self.clients@, r@[k].0), now_ms, timeout_ms)
                    && r@[k].1 == value_of(self.clients@, r@[k].0).id,
            forall|k: int|
                0 <= k < self.clients@.len() && sp_timed_out(
                    (#[trigger] self.clients@[k]).1,
                    now_ms,
                    timeout_ms,
                ) ==> r@.contains((self.clients@[k].0, self.clients@[k].1.id)),
    {
        let n = self.clients.len();
        let mut r: Vec<(Address, EntityId)> = Vec::new();
        let mut k: usize = 0;
        while k < n
            invariant
                k <= n,
                n == self.clients@.len(),
                self.wf(),
                forall|m: int|
                    0 <= m < r@.len() ==> has_key(self.clients@, (#[trigger] r@[m]).0)
                        && sp_timed_out(value_of(self.clients@, r@[m].0), now_ms, timeout_ms)
                        && r@[m].1 == value_of(self.clients@, r@[m].0).id,
                forall|m: int|
                    0 <= m < k && sp_timed_out(
                        (#[trigger] self.clients@[m]).1,
                        now_ms,
                        timeout_ms,
                    ) ==> r@.contains((self.clients@[m].0, self.clients@[m].1.id)),
            decreases n - k,
        {
            let address = self.clients.key_at(k);
            let session = *self.clients.val_at(k);
            let timed_out = now_ms >= session.last_active_ms && {
                now_ms - session.last_active_ms > timeout_ms
            };
            assert(timed_out == sp_timed_out(session, now_ms, timeout_ms));
            if timed_out {
                proof {
                    assert(has_key(self.clients@, address));
                    let w = index_of(self.clients@, address);
                    assert(self.clients@[w].0 == address);
                    assert(w == k as int);
                }
                let ghost prev = r@;
                r.push((address, session.id));
                proof {
                    assert(r@[prev.len() as int] == (address, session.id));
                    assert forall|m: int|
                        0 <= m < k as int + 1 && sp_timed_out(
                            (#[trigger] self.clients@[m]).1,
                            now_ms,
                            timeout_ms,
                        ) implies r@.contains((self.clients@[m].0, self.clients@[m].1.id)) by {
                        if m < k as int {
                            assert(prev.contains((self.clients@[m].0, self.clients@[m].1.id)));
                            let w = choose|w: int|
                                0 <= w < prev.len() && prev[w] == (
                                self.clients@[m].0,
                                self.clients@[m].1.id,
                                );
                            assert(r@[w] == prev[w]);
                        } else {
                            assert(r@[prev.len() as int] == (
                            self.clients@[m].0,
                            self.clients@[m].1.id,
                            ));
                        }
                    }
                }
            }
            k += 1;
        }
        r
    }

    /// Evicts one session: the session disappears and its ship is destroyed,
    /// exactly as if the client had sent an explicit leave.
    pub fn evict(&mut self, state: &mut GameState, address: Address)
        requires
            old(self).wf(),
            old(state).wf(),
            old(self).ids_valid(*old(state)),
        ensures
            final(self).wf(),
            final(state).wf(),
            final(self).ids_valid(*final(state)),
            !has_key(final(self).clients@, address),
            has_key(old(self).clients@, address) ==> {
                &&& final(self).clients@ == old(self).clients@.remove(
                    index_of(old(self).clients@, address),
                )
                &&& final(state).entities.ships@ == old(state).entities.ships@.filter(
                    |e: (EntityId, Ship)| e.0 != value_of(old(self).clients@, address).id,
                )
            },
            !has_key(old(self).clients@, address) ==> final(self).clients@ == old(
                self,
            ).clients@ && *final(state) == *old(state),
    {
        let ghost idx = index_of(old(self).clients@, address);
        match self.clients.take(address) {
            Some(session) => {
                state.on_leave(session.id);
                proof {
                    assert forall|k: int| 0 <= k < self.clients@.len() implies (
                    #[trigger] self.clients@[k]).1.id < state.entities.spec_next_id() by {
                        if k < idx {
                            assert(self.clients@[k] == old(self).clients@[k]);
                        } else {
                            assert(self.clients@[k] == old(self).clients@[k + 1]);
                        }
                    }
                }
            },
            None => {},
        }
    }
}

} // verus!
