//! Admitting connections, and letting them end when the proxy stops.

use vstd::prelude::*;

verus! {

/// How many connections may queue at the port that the proxy listens on.
pub const LISTEN_BACKLOG: u32 = 16384;

/// How long to pause after a connection could not be accepted, in milliseconds.
pub const ACCEPT_PAUSE_MS: u64 = 100;

/// How long to wait before looking again whether all connections have ended, in milliseconds.
pub const DRAIN_TICK_MS: u64 = 100;

/// How often to look before giving up.
pub const DRAIN_TICKS: u32 = 100;

/// How many connections are being served, and how many may be at once (0 for no limit).
#[derive(Debug, PartialEq, Eq)]
pub struct ConnectionGate {
    limit: usize,
    active: usize,
}

/// What a [`ConnectionGate`] stands for.
pub struct Occupancy {
    pub limit: nat,
    pub active: nat,
}

impl View for ConnectionGate {
    type V = Occupancy;

    closed spec fn view(&self) -> Occupancy {
        Occupancy { limit: self.limit as nat, active: self.active as nat }
    }
}

impl Occupancy {
    /// Whether one more connection may be served. Beyond the limit that is set, there is only
    /// that of the numbers of the machine.
    pub open spec fn has_room(self) -> bool {
        &&& self.limit == 0 || self.active < self.limit
        &&& self.active < usize::MAX
    }

    /// What it is after a connection has come, which is served if there is room.
    pub open spec fn after_coming(self) -> Occupancy {
        Occupancy {
            limit: self.limit,
            active: if self.has_room() {
                self.active + 1
            } else {
                self.active
            },
        }
    }

    /// What it is after a connection has gone.
    pub open spec fn after_going(self) -> Occupancy {
        Occupancy {
            limit: self.limit,
            active: if self.active > 0 {
                (self.active - 1) as nat
            } else {
                0
            },
        }
    }
}

impl ConnectionGate {
    /// A gate at which nobody has come yet.
    pub fn new(limit: usize) -> (r: ConnectionGate)
        ensures
            r@ == (Occupancy { limit: limit as nat, active: 0 }),
    {
        ConnectionGate { limit, active: 0 }
    }

    /// How many connections are being served.
    pub fn active(&self) -> (r: usize)
        ensures
            r == self@.active,
    {
        self.active
    }

    /// Lets one more connection in if there is room.
    pub fn enter(&mut self) -> (r: bool)
        ensures
            r == old(self)@.has_room(),
            final(self)@ == (Occupancy {
                limit: old(self)@.limit,
                active: if r {
                    old(self)@.active + 1
                } else {
                    old(self)@.active
                },
            }),
            final(self)@ == old(self)@.after_coming(),
    {
        if (self.limit == 0 || self.active < self.limit) && self.active < usize::MAX {
            self.active = self.active + 1;
            true
        } else {
            false
        }
    }

    /// Takes note that a connection has ended.
    pub fn release(&mut self)
        ensures
            final(self)@ == (Occupancy {
                limit: old(self)@.limit,
                active: if old(self)@.active > 0 {
                    (old(self)@.active - 1) as nat
                } else {
                    0
                },
            }),
            final(self)@ == old(self)@.after_going(),
    {
        if self.active > 0 {
            self.active = self.active - 1;
        }
    }
}

/// What the proxy waits for while it listens.
#[derive(Clone, Copy, Debug, PartialEq, Eq, Structural)]
pub enum ServerEvent {
    /// It is told to stop.
    Shutdown,
    /// A connection has come in.
    Connection,
    /// A connection could not be accepted.
    AcceptFailed,
}

/// What the proxy does next.
#[derive(Clone, Copy, Debug, PartialEq, Eq, Structural)]
pub enum ServerAction {
    /// It stops listening.
    Stop,
    /// It serves the connection.
    Serve,
    /// It closes the connection at once.
    Reject,
    /// It pauses for so many milliseconds.
    Pause(u64),
}

/// What the proxy does next while it listens. Connections that there is no room for are closed.
pub fn listen_step(gate: &mut ConnectionGate, event: ServerEvent) -> (r: ServerAction)
    ensures
        r == match event {
            ServerEvent::Shutdown => ServerAction::Stop,
            ServerEvent::Connection => if old(gate)@.has_room() {
                ServerAction::Serve
            } else {
                ServerAction::Reject
            },
            ServerEvent::AcceptFailed => ServerAction::Pause(ACCEPT_PAUSE_MS),
        },
        final(gate)@ == (Occupancy {
            limit: old(gate)@.limit,
            active: if r == ServerAction::Serve {
                old(gate)@.active + 1
            } else {
                old(gate)@.active
            },
        }),
        event is Connection ==> final(gate)@ == old(gate)@.after_coming(),
{
    match event {
        ServerEvent::Shutdown => ServerAction::Stop,
        ServerEvent::Connection => {
            if gate.enter() {
                ServerAction::Serve
            } else {
                ServerAction::Reject
            }
        },
        ServerEvent::AcceptFailed => ServerAction::Pause(ACCEPT_PAUSE_MS),
    }
}

/// What to do while the connections end that are still being served.
#[derive(Clone, Copy, Debug, PartialEq, Eq, Structural)]
pub enum Drain {
    /// All have ended.
    Finished,
    /// They have had their time.
    GiveUp,
    /// Wait for so many milliseconds, then look again.
    Wait(u64),
}

/// What to do after having waited `waited` times for the connections that are being served.
pub open spec fn drained(active: nat, waited: nat) -> Drain {
    if active == 0 {
        Drain::Finished
    } else if waited >= DRAIN_TICKS {
        Drain::GiveUp
    } else {
        Drain::Wait(DRAIN_TICK_MS)
    }
}

/// What to do after having waited `waited` times for the connections that are being served.
pub fn drain_step(active: usize, waited: u32) -> (r: Drain)
    ensures
        r == drained(active as nat, waited as nat),
{
    if active == 0 {
        Drain::Finished
    } else if waited >= DRAIN_TICKS {
        Drain::GiveUp
    } else {
        Drain::Wait(DRAIN_TICK_MS)
    }
}

/// Connections that come and go: whether each comes.
pub open spec fn occupancy(limit: nat, comings: Seq<bool>) -> Occupancy
    decreases comings.len(),
{
    if comings.len() == 0 {
        Occupancy { limit, active: 0 }
    } else {
        let o = occupancy(limit, comings.drop_last());
        if comings.last() {
            o.after_coming()
        } else {
            o.after_going()
        }
    }
}

/// Whatever comes and goes, no more connections are served at once than the limit allows.
pub proof fn law_limit_holds(limit: nat, comings: Seq<bool>)
    requires
        limit > 0,
    ensures
        occupancy(limit, comings).active <= limit,
    decreases comings.len(),
{
    if comings.len() > 0 {
        law_limit_holds(limit, comings.drop_last());
        lemma_same_limit(limit, comings.drop_last());
    }
}

proof fn lemma_same_limit(limit: nat, comings: Seq<bool>)
    ensures
        occupancy(limit, comings).limit == limit,
    decreases comings.len(),
{
    if comings.len() > 0 {
        lemma_same_limit(limit, comings.drop_last());
    }
}

/// How long the proxy has waited in all, in milliseconds, where it found these numbers of
/// connections each time that it looked.
pub open spec fn waited_ms(found: Seq<nat>) -> nat
    decreases found.len(),
{
    if found.len() == 0 {
        0
    } else {
        let before = found.drop_last();
        waited_ms(before) + match drained(found.last(), before.len()) {
            Drain::Wait(ms) => ms as nat,
            _ => 0,
        }
    }
}

/// Stopping takes at most ten seconds of waiting, however many connections there are, and no more
/// looks than that wait for.
pub proof fn law_stopping_takes_ten_seconds(found: Seq<nat>)
    ensures
        waited_ms(found) <= 10_000,
        waited_ms(found) <= DRAIN_TICK_MS * found.len(),
        forall|active: nat| !(#[trigger] drained(active, DRAIN_TICKS as nat) is Wait),
    decreases found.len(),
{
    if found.len() > 0 {
        law_stopping_takes_ten_seconds(found.drop_last());
    }
}

/// So many connections that come, and none that goes.
pub open spec fn all_come(n: nat) -> Seq<bool> {
    Seq::new(n, |i: int| true)
}

/// Where nobody goes, just as many connections are served as the limit says, the first that come, and
/// without a limit all of them.
pub proof fn law_the_limit_is_used(limit: nat, n: nat)
    requires
        n <= usize::MAX,
        limit <= usize::MAX,
    ensures
        occupancy(limit, all_come(n)).active == (if limit == 0 || n <= limit {
            n
        } else {
            limit
        }),
    decreases n,
{
    if n > 0 {
        law_the_limit_is_used(limit, (n - 1) as nat);
        lemma_same_limit(limit, all_come((n - 1) as nat));
        assert(all_come(n).drop_last() =~= all_come((n - 1) as nat));
    }
}

/// A connection that ends makes room for one more: where one goes, one that then comes is served, and
/// as many are served as before.
pub proof fn law_places_are_given_back(limit: nat, comings: Seq<bool>)
    requires
        occupancy(limit, comings).active > 0,
        limit <= usize::MAX,
    ensures
        occupancy(limit, comings.push(false)).active == occupancy(limit, comings).active - 1,
        occupancy(limit, comings.push(false)).has_room(),
        occupancy(limit, comings.push(false).push(true)).active == occupancy(limit, comings).active,
{
    lemma_countable(limit, comings);
    lemma_same_limit(limit, comings);
    assert(comings.push(false).drop_last() =~= comings);
    assert(comings.push(false).push(true).drop_last() =~= comings.push(false));
    if limit > 0 {
        law_limit_holds(limit, comings);
    }
}

proof fn lemma_countable(limit: nat, comings: Seq<bool>)
    ensures
        occupancy(limit, comings).active <= usize::MAX,
    decreases comings.len(),
{
    if comings.len() > 0 {
        lemma_countable(limit, comings.drop_last());
    }
}

/// As long as connections are found, it is waited a tenth of a second each time, a hundred times, and
/// then no more; and once none is found, it is over.
pub proof fn law_waiting(found: Seq<nat>, waited: nat)
    requires
        forall|i: int| 0 <= i < found.len() ==> #[trigger] found[i] > 0,
    ensures
        waited_ms(found) == (if found.len() <= 100 {
            100 * found.len()
        } else {
            10_000
        }),
        drained(0, waited) == Drain::Finished,
        waited >= 100 ==> drained(1, waited) == Drain::GiveUp,
    decreases found.len(),
{
    if found.len() > 0 {
        let front = found.drop_last();
        assert forall|i: int| 0 <= i < front.len() implies #[trigger] front[i] > 0 by {
            assert(front[i] == found[i]);
        }
        law_waiting(front, waited);
        assert(found[found.len() - 1] > 0);
    }
}

} // verus!
