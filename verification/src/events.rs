//! The bounded event mailbox between the listener and the tick loop: a ring
//! buffer with one writer and one reader; the tick loop drains it fully once
//! per tick and never blocks.

use vstd::prelude::*;

verus! {

/// A peer connected; the payload is the handle the transport gave out.
#[derive(Clone, Copy, Debug, PartialEq, Eq, Structural)]
pub struct ConnectEvent {
    pub client_handle: u64,
}

/// A peer is gone.
#[derive(Clone, Copy, Debug, PartialEq, Eq, Structural)]
pub struct DisconnectEvent {
    pub client_id: u64,
}

/// Time passed; one tick's worth of simulation should run.
#[derive(Clone, Copy, Debug, PartialEq, Eq, Structural)]
pub struct UpdateEvent {
    pub elapsed_ms: u64,
}

/// One queued happening, the closed set the tick loop matches on.
#[derive(Clone, Copy, Debug, PartialEq, Eq, Structural)]
pub enum Event {
    Connect(ConnectEvent),
    Disconnect(DisconnectEvent),
    Update(UpdateEvent),
}

/// The mailbox: a bounded first-in-first-out queue. Pushing to a full
/// mailbox reports failure instead of blocking or growing.
pub struct Events {
    buffer: Vec<Event>,
    capacity: usize,
}

impl Events {
    /// The queued events, oldest first.
    pub closed spec fn queued(self) -> Seq<Event> {
        self.buffer@
    }

    /// The fixed bound the mailbox was made with.
    pub closed spec fn spec_capacity(self) -> int {
        self.capacity as int
    }

    pub open spec fn wf(self) -> bool {
        self.queued().len() <= self.spec_capacity()
    }

    pub fn new(capacity: usize) -> (r: Events)
        ensures
            r.wf(),
            r.queued() == Seq::<Event>::empty(),
            r.spec_capacity() == capacity,
    {
        Events { buffer: Vec::new(), capacity }
    }

    pub fn len(&self) -> (r: usize)
        ensures
            r == self.queued().len(),
    {
        self.buffer.len()
    }

    /// Queues an event; a full mailbox refuses it unchanged.
    pub fn push(&mut self, event: Event) -> (r: bool)
        requires
            old(self).wf(),
        ensures
            final(self).wf(),
            final(self).spec_capacity() == old(self).spec_capacity(),
            r == (old(self).queued().len() < old(self).spec_capacity()),
            r ==> final(self).queued() == old(self).queued().push(event),
            !r ==> final(self).queued() == old(self).queued(),
    {
        if self.buffer.len() < self.capacity {
            self.buffer.push(event);
            true
        } else {
            false
        }
    }

    /// Takes the oldest event, if any; the reader drains by calling this
    /// until it yields nothing.
    pub fn next(&mut self) -> (r: Option<Event>)
        requires
            old(self).wf(),
        ensures
            final(self).wf(),
            final(self).spec_capacity() == old(self).spec_capacity(),
            r is Some <==> old(self).queued().len() > 0,
            r matches Some(e) ==> e == old(self).queued()[0] && final(self).queued() == old(
                self,
            ).queued().drop_first(),
            r is None ==> final(self).queued() == old(self).queued(),
    {
        if self.buffer.len() > 0 {
            let e = self.buffer.remove(0);
            proof {
                assert(self.buffer@ =~= old(self).buffer@.drop_first());
            }
            Some(e)
        } else {
            None
        }
    }
}

} // verus!
