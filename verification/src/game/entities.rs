//! The authoritative component store: tables of components keyed by entity
//! id, with deterministic iteration order, single-owner mutation, deferred
//! destruction support and a per-tick export snapshot.

use vstd::prelude::*;

use crate::game::data::{Body, Broadcast, EntityId, Maneuver, Planet, Ship};

verus! {

/// A component table: entity-id-keyed entries in insertion order, each key at
/// most once.
pub struct Table<T> {
    entries: Vec<(EntityId, T)>,
}

impl<T> View for Table<T> {
    type V = Seq<(EntityId, T)>;

    closed spec fn view(&self) -> Seq<(EntityId, T)> {
        self.entries@
    }
}

/// The keys of a run of entries.
pub open spec fn keys_of<T>(s: Seq<(EntityId, T)>) -> Seq<EntityId> {
    s.map_values(|e: (EntityId, T)| e.0)
}

/// Whether a run of entries holds the key.
pub open spec fn has_key<T>(s: Seq<(EntityId, T)>, id: EntityId) -> bool {
    exists|i: int| 0 <= i < s.len() && (#[trigger] s[i]).0 == id
}

/// The position of the key in a run of entries.
pub open spec fn index_of<T>(s: Seq<(EntityId, T)>, id: EntityId) -> int {
    choose|i: int| 0 <= i < s.len() && (#[trigger] s[i]).0 == id
}

/// The value stored under the key, where the key is present.
pub open spec fn value_of<T>(s: Seq<(EntityId, T)>, id: EntityId) -> T {
    s[index_of(s, id)].1
}

/// Whether each key appears at most once.
pub open spec fn keys_unique<T>(s: Seq<(EntityId, T)>) -> bool {
    forall|i: int, j: int|
        0 <= i < j < s.len() ==> (#[trigger] s[i]).0 != (#[trigger] s[j]).0
}

impl<T> Table<T> {
    pub open spec fn wf(self) -> bool {
        keys_unique(self@)
    }

    pub fn new() -> (r: Self)
        ensures
            r@ == Seq::<(EntityId, T)>::empty(),
            r.wf(),
    {
        Table { entries: Vec::new() }
    }

    pub fn len(&self) -> (r: usize)
        ensures
            r == self@.len(),
    {
        self.entries.len()
    }

    /// The key of the entry at a position.
    pub fn key_at(&self, i: usize) -> (r: EntityId)
        requires
            i < self@.len(),
        ensures
            r == self@[i as int].0,
    {
        self.entries[i].0
    }

    /// The value of the entry at a position.
    pub fn val_at(&self, i: usize) -> (r: &T)
        requires
            i < self@.len(),
        ensures
            *r == self@[i as int].1,
    {
        &self.entries[i].1
    }

    /// Replaces the value at a position, keeping its key.
    pub fn set_at(&mut self, i: usize, v: T)
        requires
            i < old(self)@.len(),
        ensures
            final(self)@ == old(self)@.update(i as int, (old(self)@[i as int].0, v)),
            old(self).wf() ==> final(self).wf(),
    {
        let id = self.entries[i].0;
        let e = &mut self.entries[i];
        *e = (id, v);
        proof {
            assert(keys_of(self@) =~= keys_of(old(self)@));
        }
    }

    pub fn contains(&self, id: EntityId) -> (r: bool)
        ensures
            r == has_key(self@, id),
    {
        let n = self.entries.len();
        let mut k: usize = 0;
        while k < n
            invariant
                k <= n,
                n == self@.len(),
                forall|i: int| 0 <= i < k ==> (#[trigger] self@[i]).0 != id,
            decreases n - k,
        {
            if self.entries[k].0 == id {
                return true;
            }
            k += 1;
        }
        false
    }

    /// Looks the key up.
    pub fn get(&self, id: EntityId) -> (r: Option<&T>)
        requires
            self.wf(),
        ensures
            r is Some <==> has_key(self@, id),
            r matches Some(v) ==> *v == value_of(self@, id),
    {
        let n = self.entries.len();
        let mut k: usize = 0;
        while k < n
            invariant
                k <= n,
                n == self@.len(),
                self.wf(),
                forall|i: int| 0 <= i < k ==> (#[trigger] self@[i]).0 != id,
            decreases n - k,
        {
            if self.entries[k].0 == id {
                proof {
                    assert(has_key(self@, id));
                    let w = index_of(self@, id);
                    assert(0 <= w < self@.len() && self@[w].0 == id);
                    assert(w == k as int);
                }
                return Some(&self.entries[k].1);
            }
            k += 1;
        }
        None
    }

    /// Inserts a fresh key.
    pub fn insert(&mut self, id: EntityId, v: T)
        requires
            old(self).wf(),
            !has_key(old(self)@, id),
        ensures
            final(self)@ == old(self)@.push((id, v)),
            final(self).wf(),
    {
        self.entries.push((id, v));
        proof {
            assert forall|i: int, j: int| 0 <= i < j < self@.len() implies (#[trigger] self@[i]).0
                != (#[trigger] self@[j]).0 by {
                if j == self@.len() - 1 {
                    assert(self@[i] == old(self)@[i]);
                }
            }
        }
    }

    /// Replaces the value under a key already present; without the key, the
    /// table is unchanged.
    pub fn set(&mut self, id: EntityId, v: T) -> (r: bool)
        requires
            old(self).wf(),
        ensures
            r == has_key(old(self)@, id),
            r ==> final(self)@ == old(self)@.update(index_of(old(self)@, id), (id, v)),
            !r ==> final(self)@ == old(self)@,
            final(self).wf(),
    {
        let n = self.entries.len();
        let mut k: usize = 0;
        while k < n
            invariant
                k <= n,
                n == self@.len(),
                self@ == old(self)@,
                self.wf(),
                forall|i: int| 0 <= i < k ==> (#[trigger] self@[i]).0 != id,
            decreases n - k,
        {
            if self.entries[k].0 == id {
                proof {
                    assert(has_key(self@, id));
                    let w = index_of(self@, id);
                    assert(0 <= w < self@.len() && self@[w].0 == id);
                    assert(w == k as int);
                }
                self.set_at(k, v);
                assert(self@ == old(self)@.update(index_of(old(self)@, id), (id, v)));
                return true;
            }
            k += 1;
        }
        false
    }

    /// Takes the value under a key out of the table, handing it to the
    /// caller; without the key, the table is unchanged.
    pub fn take(&mut self, id: EntityId) -> (r: Option<T>)
        requires
            old(self).wf(),
        ensures
            final(self).wf(),
            r is Some <==> has_key(old(self)@, id),
            r matches Some(v) ==> v == value_of(old(self)@, id) && final(self)@ == old(
                self,
            )@.remove(index_of(old(self)@, id)),
            r is None ==> final(self)@ == old(self)@,
            r is Some ==> !has_key(final(self)@, id),
    {
        let n = self.entries.len();
        let mut k: usize = 0;
        while k < n
            invariant
                k <= n,
                n == self@.len(),
                self@ == old(self)@,
                self.wf(),
                forall|i: int| 0 <= i < k ==> (#[trigger] self@[i]).0 != id,
            decreases n - k,
        {
            if self.entries[k].0 == id {
                proof {
                    assert(has_key(self@, id));
                    let w = index_of(self@, id);
                    assert(0 <= w < self@.len() && self@[w].0 == id);
                    assert(w == k as int);
                }
                let (_, v) = self.entries.remove(k);
                proof {
                    assert forall|i: int, j: int| 0 <= i < j < self@.len() implies (
                    #[trigger] self@[i]).0 != (#[trigger] self@[j]).0 by {
                        if j < k as int {
                            assert(self@[i] == old(self)@[i] && self@[j] == old(self)@[j]);
                        } else if i < k as int {
                            assert(self@[i] == old(self)@[i] && self@[j] == old(self)@[j + 1]);
                        } else {
                            assert(self@[i] == old(self)@[i + 1] && self@[j] == old(self)@[j
                                + 1]);
                        }
                    }
                    assert forall|i: int| 0 <= i < self@.len() implies (#[trigger] self@[i]).0
                        != id by {
                        if i < k as int {
                            assert(self@[i] == old(self)@[i]);
                        } else {
                            assert(self@[i] == old(self)@[i + 1]);
                        }
                    }
                }
                return Some(v);
            }
            k += 1;
        }
        None
    }

    /// Removes the key if present; without it, the table is unchanged. In
    /// either case the entries that stay keep their order.
    pub fn remove(&mut self, id: EntityId)
        requires
            old(self).wf(),
        ensures
            final(self)@ == old(self)@.filter(|e: (EntityId, T)| e.0 != id),
            final(self).wf(),
            !has_key(final(self)@, id),
    {
        let ghost pred = |e: (EntityId, T)| e.0 != id;
        let mut src: Vec<(EntityId, T)> = Vec::new();
        core::mem::swap(&mut src, &mut self.entries);
        let ghost orig = src@;
        let mut out: Vec<(EntityId, T)> = Vec::new();
        let n = src.len();
        let mut k: usize = 0;
        proof {
            reveal(Seq::filter);
            assert(orig.take(0).filter(pred) =~= Seq::<(EntityId, T)>::empty());
            assert(src@ =~= orig.subrange(0, n as int));
        }
        while k < n
            invariant
                k <= n,
                n == orig.len(),
                src@ == orig.subrange(k as int, n as int),
                out@ == orig.take(k as int).filter(pred),
                pred == (|e: (EntityId, T)| e.0 != id),
            decreases n - k,
        {
            proof {
                assert(orig.take(k as int + 1).drop_last() =~= orig.take(k as int));
                assert(orig.take(k as int + 1).last() == orig[k as int]);
            }
            let e = src.remove(0);
            assert(e == orig[k as int]);
            if e.0 != id {
                out.push(e);
            }
            k += 1;
            proof {
                reveal(Seq::filter);
                assert(src@ =~= orig.subrange(k as int, n as int));
                assert(out@ =~= orig.take(k as int).filter(pred));
            }
        }
        proof {
            assert(orig.take(n as int) =~= orig);
        }
        self.entries = out;
        proof {
            lemma_filter_is_subset(orig, pred);
            lemma_filter_unique(orig, pred);
            let f = orig.filter(pred);
            assert forall|i: int| 0 <= i < f.len() implies (#[trigger] f[i]).0 != id by {
                orig.lemma_filter_pred(pred, i);
            }
        }
    }
}

/// Whether every key of a run of entries lies below the next id to be
/// assigned.
pub open spec fn keys_below<T>(s: Seq<(EntityId, T)>, n: EntityId) -> bool {
    forall|i: int| 0 <= i < s.len() ==> (#[trigger] s[i]).0 < n
}

/// One row of an export snapshot: an entity's id with what is known of it.
pub struct Entity {
    pub id: EntityId,
    pub body: Option<Body>,
    pub broadcast: Option<Broadcast>,
}

/// The authoritative component tables, the single owner of the world. Ids are
/// assigned monotonically and never reused; destruction removes an id from
/// every table and is idempotent.
pub struct Entities {
    /// The id the next created entity will get; ids are never reused.
    pub next_id: EntityId,
    pub bodies: Table<Body>,
    pub planets: Table<Planet>,
    pub ships: Table<Ship>,
    pub maneuvers: Table<Maneuver>,
    pub broadcasts: Table<Broadcast>,
}

impl Entities {
    /// The id the next created entity will get.
    pub open spec fn spec_next_id(self) -> EntityId {
        self.next_id
    }

    pub open spec fn wf(self) -> bool {
        &&& self.bodies.wf() && keys_below(self.bodies@, self.spec_next_id())
        &&& self.planets.wf() && keys_below(self.planets@, self.spec_next_id())
        &&& self.ships.wf() && keys_below(self.ships@, self.spec_next_id())
        &&& self.maneuvers.wf() && keys_below(self.maneuvers@, self.spec_next_id())
        &&& self.broadcasts.wf() && keys_below(self.broadcasts@, self.spec_next_id())
    }

    pub fn new() -> (r: Entities)
        ensures
            r.wf(),
            r.spec_next_id() == 0,
            r.bodies@ == Seq::<(EntityId, Body)>::empty(),
            r.planets@ == Seq::<(EntityId, Planet)>::empty(),
            r.ships@ == Seq::<(EntityId, Ship)>::empty(),
            r.maneuvers@ == Seq::<(EntityId, Maneuver)>::empty(),
            r.broadcasts@ == Seq::<(EntityId, Broadcast)>::empty(),
    {
        Entities {
            next_id: 0,
            bodies: Table::new(),
            planets: Table::new(),
            ships: Table::new(),
            maneuvers: Table::new(),
            broadcasts: Table::new(),
        }
    }

    /// Creates a ship entity: a `Ship` marker with its body.
    pub fn create_ship(&mut self, body: Body) -> (id: EntityId)
        requires
            old(self).wf(),
            old(self).spec_next_id() < EntityId::MAX,
        ensures
            final(self).wf(),
            id == old(self).spec_next_id(),
            final(self).spec_next_id() == old(self).spec_next_id() + 1,
            final(self).ships@ == old(self).ships@.push((id, Ship)),
            final(self).bodies@ == old(self).bodies@.push((id, body)),
            final(self).planets@ == old(self).planets@,
            final(self).maneuvers@ == old(self).maneuvers@,
            final(self).broadcasts@ == old(self).broadcasts@,
    {
        let id = self.next_id;
        self.next_id = self.next_id + 1;
        self.ships.insert(id, Ship);
        self.bodies.insert(id, body);
        id
    }

    /// Creates a planet entity.
    pub fn create_planet(&mut self, planet: Planet) -> (id: EntityId)
        requires
            old(self).wf(),
            old(self).spec_next_id() < EntityId::MAX,
        ensures
            final(self).wf(),
            id == old(self).spec_next_id(),
            final(self).spec_next_id() == old(self).spec_next_id() + 1,
            final(self).planets@ == old(self).planets@.push((id, planet)),
            final(self).bodies@ == old(self).bodies@,
            final(self).ships@ == old(self).ships@,
            final(self).maneuvers@ == old(self).maneuvers@,
            final(self).broadcasts@ == old(self).broadcasts@,
    {
        let id = self.next_id;
        self.next_id = self.next_id + 1;
        self.planets.insert(id, planet);
        id
    }

    /// Creates a maneuver entity.
    pub fn create_maneuver(&mut self, maneuver: Maneuver) -> (id: EntityId)
        requires
            old(self).wf(),
            old(self).spec_next_id() < EntityId::MAX,
        ensures
            final(self).wf(),
            id == old(self).spec_next_id(),
            final(self).spec_next_id() == old(self).spec_next_id() + 1,
            final(self).maneuvers@ == old(self).maneuvers@.push((id, maneuver)),
            final(self).bodies@ == old(self).bodies@,
            final(self).ships@ == old(self).ships@,
            final(self).planets@ == old(self).planets@,
            final(self).broadcasts@ == old(self).broadcasts@,
    {
        let id = self.next_id;
        self.next_id = self.next_id + 1;
        self.maneuvers.insert(id, maneuver);
        id
    }

    /// Sets the entity's broadcast, replacing any it already had.
    pub fn add_broadcast(&mut self, id: EntityId, message: String)
        requires
            old(self).wf(),
            id < old(self).spec_next_id(),
        ensures
            final(self).wf(),
            final(self).spec_next_id() == old(self).spec_next_id(),
            final(self).broadcasts@ == old(self).broadcasts@.filter(
                |e: (EntityId, Broadcast)| e.0 != id,
            ).push((id, Broadcast { sender: id, message })),
            final(self).bodies@ == old(self).bodies@,
            final(self).ships@ == old(self).ships@,
            final(self).planets@ == old(self).planets@,
            final(self).maneuvers@ == old(self).maneuvers@,
    {
        self.broadcasts.remove(id);
        proof {
            lemma_filter_is_subset(old(self).broadcasts@, |e: (EntityId, Broadcast)| e.0 != id);
        }
        self.broadcasts.insert(id, Broadcast { sender: id, message });
    }

    /// Withdraws the entity's broadcast; without one, nothing changes.
    pub fn remove_broadcast(&mut self, id: EntityId)
        requires
            old(self).wf(),
        ensures
            final(self).wf(),
            final(self).spec_next_id() == old(self).spec_next_id(),
            final(self).broadcasts@ == old(self).broadcasts@.filter(
                |e: (EntityId, Broadcast)| e.0 != id,
            ),
            final(self).bodies@ == old(self).bodies@,
            final(self).ships@ == old(self).ships@,
            final(self).planets@ == old(self).planets@,
            final(self).maneuvers@ == old(self).maneuvers@,
    {
        proof {
            lemma_filter_is_subset(old(self).broadcasts@, |e: (EntityId, Broadcast)| e.0 != id);
        }
        self.broadcasts.remove(id);
    }

    /// Removes the id from every table it appears in; idempotent.
    pub fn destroy_entity(&mut self, id: EntityId)
        requires
            old(self).wf(),
        ensures
            final(self).wf(),
            final(self).spec_next_id() == old(self).spec_next_id(),
            final(self).bodies@ == old(self).bodies@.filter(|e: (EntityId, Body)| e.0 != id),
            final(self).planets@ == old(self).planets@.filter(|e: (EntityId, Planet)| e.0 != id),
            final(self).ships@ == old(self).ships@.filter(|e: (EntityId, Ship)| e.0 != id),
            final(self).maneuvers@ == old(self).maneuvers@.filter(
                |e: (EntityId, Maneuver)| e.0 != id,
            ),
            final(self).broadcasts@ == old(self).broadcasts@.filter(
                |e: (EntityId, Broadcast)| e.0 != id,
            ),
    {
        proof {
            lemma_filter_is_subset(old(self).bodies@, |e: (EntityId, Body)| e.0 != id);
            lemma_filter_is_subset(old(self).planets@, |e: (EntityId, Planet)| e.0 != id);
            lemma_filter_is_subset(old(self).ships@, |e: (EntityId, Ship)| e.0 != id);
            lemma_filter_is_subset(old(self).maneuvers@, |e: (EntityId, Maneuver)| e.0 != id);
            lemma_filter_is_subset(old(self).broadcasts@, |e: (EntityId, Broadcast)| e.0 != id);
        }
        self.bodies.remove(id);
        self.planets.remove(id);
        self.ships.remove(id);
        self.maneuvers.remove(id);
        self.broadcasts.remove(id);
    }

    /// A consistent read-only snapshot of every ship's body and optional
    /// broadcast, in table order, taken once per tick after all systems ran.
    pub fn export_entities(&self) -> (r: Vec<Entity>)
        requires
            self.wf(),
        ensures
            r@.len() == self.ships@.len(),
            forall|k: int|
                0 <= k < r@.len() ==> {
                    &&& (#[trigger] r@[k]).id == self.ships@[k].0
                    &&& (r@[k].body is Some <==> has_key(self.bodies@, self.ships@[k].0))
                    &&& (r@[k].body matches Some(b) ==> b == value_of(
                        self.bodies@,
                        self.ships@[k].0,
                    ))
                    &&& (r@[k].broadcast is Some <==> has_key(
                        self.broadcasts@,
                        self.ships@[k].0,
                    ))
                    &&& (r@[k].broadcast matches Some(bc) ==> bc.sender == value_of(
                        self.broadcasts@,
                        self.ships@[k].0,
                    ).sender && bc.message@ == value_of(
                        self.broadcasts@,
                        self.ships@[k].0,
                    ).message@)
                },
    {
        let n = self.ships.len();
        let mut r: Vec<Entity> = Vec::new();
        let mut k: usize = 0;
        while k < n
            invariant
                k <= n,
                n == self.ships@.len(),
                self.wf(),
                r@.len() == k,
                forall|m: int|
                    0 <= m < k ==> {
                        &&& (#[trigger] r@[m]).id == self.ships@[m].0
                        &&& (r@[m].body is Some <==> has_key(self.bodies@, self.ships@[m].0))
                        &&& (r@[m].body matches Some(b) ==> b == value_of(
                            self.bodies@,
                            self.ships@[m].0,
                        ))
                        &&& (r@[m].broadcast is Some <==> has_key(
                            self.broadcasts@,
                            self.ships@[m].0,
                        ))
                        &&& (r@[m].broadcast matches Some(bc) ==> bc.sender == value_of(
                            self.broadcasts@,
                            self.ships@[m].0,
                        ).sender && bc.message@ == value_of(
                            self.broadcasts@,
                            self.ships@[m].0,
                        ).message@)
                    },
            decreases n - k,
        {
            let id = self.ships.key_at(k);
            let body = match self.bodies.get(id) {
                Some(b) => Some(*b),
                None => None,
            };
            let broadcast = match self.broadcasts.get(id) {
                Some(bc) => Some(bc.clone()),
                None => None,
            };
            r.push(Entity { id, body, broadcast });
            k += 1;
        }
        r
    }
}

/// In a table with unique keys, the entry at a position is exactly what a
/// lookup of its key finds.
pub proof fn lemma_value_of_unique<T>(s: Seq<(EntityId, T)>, i: int)
    requires
        keys_unique(s),
        0 <= i < s.len(),
    ensures
        has_key(s, s[i].0),
        index_of(s, s[i].0) == i,
        value_of(s, s[i].0) == s[i].1,
{
    assert(has_key(s, s[i].0));
    let w = index_of(s, s[i].0);
    assert(0 <= w < s.len() && s[w].0 == s[i].0);
    if w != i {
        if w < i {
            assert(s[w].0 != s[i].0);
        } else {
            assert(s[i].0 != s[w].0);
        }
    }
}

/// Every element a filter keeps stands somewhere in the original.
pub proof fn lemma_filter_is_subset<T>(s: Seq<T>, pred: spec_fn(T) -> bool)
    ensures
        forall|i: int|
            0 <= i < s.filter(pred).len() ==> s.contains(#[trigger] s.filter(pred)[i]),
    decreases s.len(),
{
    reveal(Seq::filter);
    if s.len() > 0 {
        lemma_filter_is_subset(s.drop_last(), pred);
        let f = s.filter(pred);
        let fd = s.drop_last().filter(pred);
        assert forall|i: int| 0 <= i < f.len() implies s.contains(#[trigger] f[i]) by {
            if pred(s.last()) && i == f.len() - 1 {
                assert(f[i] == s.last());
                assert(s[s.len() - 1] == s.last());
            } else {
                assert(f[i] == fd[i]);
                assert(s.drop_last().contains(fd[i]));
                let j = choose|j: int| 0 <= j < s.drop_last().len() && s.drop_last()[j] == fd[i];
                assert(s[j] == fd[i]);
            }
        }
    }
}

/// Filtering keeps keys distinct where they were distinct.
pub proof fn lemma_filter_unique<T>(s: Seq<(EntityId, T)>, pred: spec_fn((EntityId, T)) -> bool)
    requires
        keys_unique(s),
    ensures
        keys_unique(s.filter(pred)),
    decreases s.len(),
{
    reveal(Seq::filter);
    if s.len() > 0 {
        assert(keys_unique(s.drop_last()));
        lemma_filter_unique(s.drop_last(), pred);
        lemma_filter_is_subset(s.drop_last(), pred);
        let f = s.filter(pred);
        let fd = s.drop_last().filter(pred);
        assert forall|i: int, j: int| 0 <= i < j < f.len() implies (#[trigger] f[i]).0 != (
        #[trigger] f[j]).0 by {
            if pred(s.last()) && j == f.len() - 1 {
                assert(f[i] == fd[i]);
                assert(s.drop_last().contains(fd[i]));
                let w = choose|w: int|
                    0 <= w < s.drop_last().len() && s.drop_last()[w] == fd[i];
                assert(s[w] == fd[i]);
                assert(f[j] == s.last());
                assert(s[w].0 != s[s.len() - 1].0);
            } else {
                assert(f[i] == fd[i]);
                assert(f[j] == fd[j]);
            }
        }
    }
}

} // verus!
