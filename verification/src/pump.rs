//! Passing bytes on, and noticing that nothing is passed on any more.

use vstd::prelude::*;
use crate::config::{Config, Settings};
use crate::failure::Failure;

verus! {

/// Nanoseconds in a second.
pub const NANOS: u128 = 1_000_000_000;

/// When a connection was last active, and for how long it may be idle. Both directions of a
/// connection share one timer, so that either of them keeps it alive. Times are nanoseconds from
/// some fixed moment.
#[derive(Clone, Copy, Debug, PartialEq, Eq)]
pub struct IdleTimer {
    pub last: u64,
    pub timeout_secs: u64,
}

impl IdleTimer {
    /// When the connection has been idle for too long.
    pub open spec fn deadline_nanos(self) -> int {
        self.last + self.timeout_secs * NANOS
    }

    /// A timer of a connection that starts now.
    pub fn new(now: u64, timeout_secs: u64) -> (r: IdleTimer)
        ensures
            r.last == now,
            r.timeout_secs == timeout_secs,
    {
        IdleTimer { last: now, timeout_secs }
    }

    /// The connection is active now.
    pub fn touch(&mut self, now: u64)
        ensures
            final(self).last == now,
            final(self).timeout_secs == old(self).timeout_secs,
    {
        self.last = now;
    }

    /// When the connection will have been idle for too long.
    pub fn deadline(&self) -> (r: u128)
        ensures
            r == self.deadline_nanos(),
    {
        assert(self.timeout_secs * NANOS <= 0xffff_ffff_ffff_ffff * 1_000_000_000)
            by (nonlinear_arith)
            requires
                0 <= self.timeout_secs <= 0xffff_ffff_ffff_ffff,
                NANOS == 1_000_000_000,
        ;
        self.last as u128 + self.timeout_secs as u128 * NANOS
    }
}

/// The timer that the relay of a connection starts with: none where being idle is not limited.
pub open spec fn first_timer(s: Settings, now: u64) -> Option<IdleTimer> {
    match s.idle_limit() {
        Some(secs) => Some(IdleTimer { last: now, timeout_secs: secs }),
        None => None,
    }
}

/// The timer for both directions of a connection whose relay starts now.
pub fn relay_timer(config: &Config, now: u64) -> (r: Option<IdleTimer>)
    ensures
        r == first_timer(config@, now),
{
    match config.idle_timeout() {
        Some(secs) => Some(IdleTimer::new(now, secs)),
        None => None,
    }
}

/// How many bytes the buffer of each direction of a connection holds.
pub fn relay_buffer_size(config: &Config) -> (r: usize)
    ensures
        r == config@.buffer_size,
{
    config.buffer_size
}

/// What came of waiting for bytes in one direction, or of writing them.
#[derive(Clone, Copy, Debug, PartialEq, Eq, Structural)]
pub enum PumpEvent {
    /// So many bytes have been read; 0 at the end.
    Read(usize),
    /// Reading was interrupted.
    Interrupted,
    /// Reading failed.
    Failed,
    /// The deadline for which the wait was set has passed.
    Expired,
    /// What was to be written has been written.
    Written,
    /// Writing failed.
    WriteFailed,
}

/// What is to be done next in one direction.
#[derive(Clone, Copy, Debug, PartialEq, Eq, Structural)]
pub enum PumpAction {
    /// Write the first so many of the bytes that were read.
    Write(usize),
    /// Wait for more, up to the deadline of the timer.
    Wait,
    /// The direction has ended.
    Finish,
    /// The direction has failed. For [`Failure::Io`] the reason is the error that was met.
    Fail(Failure),
}

/// What is to be done after an event. That a wait is over does not by itself mean that the
/// connection is idle: the other direction may have been active in the meantime.
pub open spec fn pumped(timer: Option<IdleTimer>, now: u64, event: PumpEvent) -> PumpAction {
    match event {
        PumpEvent::Read(n) => if n == 0 {
            PumpAction::Finish
        } else {
            PumpAction::Write(n)
        },
        PumpEvent::Interrupted | PumpEvent::Written => PumpAction::Wait,
        PumpEvent::Failed | PumpEvent::WriteFailed => PumpAction::Fail(Failure::Io),
        PumpEvent::Expired => match timer {
            Some(t) => if now >= t.deadline_nanos() {
                PumpAction::Fail(Failure::IdleTimedOut)
            } else {
                PumpAction::Wait
            },
            None => PumpAction::Wait,
        },
    }
}

/// The timer after an event: bytes that have been read count as activity.
pub open spec fn timed(timer: Option<IdleTimer>, now: u64, event: PumpEvent) -> Option<IdleTimer> {
    match (timer, event) {
        (Some(t), PumpEvent::Read(n)) => if n > 0 {
            Some(IdleTimer { last: now, timeout_secs: t.timeout_secs })
        } else {
            timer
        },
        _ => timer,
    }
}

/// Takes note of an event in one direction, and says what is to be done next in it.
pub fn pump(timer: &mut Option<IdleTimer>, now: u64, event: PumpEvent) -> (r: PumpAction)
    ensures
        r == pumped(*old(timer), now, event),
        *final(timer) == timed(*old(timer), now, event),
{
    match event {
        PumpEvent::Read(n) => {
            if n == 0 {
                return PumpAction::Finish;
            }
            if let Some(t) = *timer {
                let mut t = t;
                t.touch(now);
                *timer = Some(t);
            }
            PumpAction::Write(n)
        },
        PumpEvent::Interrupted | PumpEvent::Written => PumpAction::Wait,
        PumpEvent::Failed | PumpEvent::WriteFailed => PumpAction::Fail(Failure::Io),
        PumpEvent::Expired => match timer {
            Some(t) => {
                if now as u128 >= t.deadline() {
                    PumpAction::Fail(Failure::IdleTimedOut)
                } else {
                    PumpAction::Wait
                }
            },
            None => PumpAction::Wait,
        },
    }
}

/// The timer after events in both directions, each with its time, in the order in which they came.
pub open spec fn timer_after(timer: IdleTimer, events: Seq<(u64, PumpEvent)>) -> IdleTimer
    decreases events.len(),
{
    if events.len() == 0 {
        timer
    } else {
        let (now, event) = events.last();
        timed(Some(timer_after(timer, events.drop_last())), now, event)->0
    }
}

/// Whether bytes have been read.
pub open spec fn is_data(event: PumpEvent) -> bool {
    event matches PumpEvent::Read(n) && n > 0
}

/// A connection is given up as idle exactly if, for as long as it may be idle, nothing has been
/// read in either direction: neither has it started nor have bytes been read since then.
pub proof fn law_idle_in_both_directions(
    timer: IdleTimer,
    events: Seq<(u64, PumpEvent)>,
    now: u64,
)
    requires
        forall|i: int| 0 <= i < events.len() ==> timer.last <= (#[trigger] events[i]).0,
        forall|i: int, j: int|
            0 <= i <= j < events.len() ==> (#[trigger] events[i]).0 <= (#[trigger] events[j]).0,
    ensures
        pumped(Some(timer_after(timer, events)), now, PumpEvent::Expired) == PumpAction::Fail(
            Failure::IdleTimedOut,
        ) <==> {
            &&& timer.last + timer.timeout_secs * NANOS <= now
            &&& forall|i: int|
                0 <= i < events.len() && is_data(#[trigger] events[i].1) ==> events[i].0
                    + timer.timeout_secs * NANOS <= now
        },
    decreases events.len(),
{
    lemma_last_activity(timer, events);
    let t = timer_after(timer, events);
    if t.last + timer.timeout_secs * NANOS <= now {
        assert forall|i: int| 0 <= i < events.len() && is_data(#[trigger] events[i].1) implies
            events[i].0 + timer.timeout_secs * NANOS <= now by {
            assert(events[i].0 <= t.last);
        }
    }
}

/// The timer holds the time of the last bytes, or that of the start if there were none.
proof fn lemma_last_activity(timer: IdleTimer, events: Seq<(u64, PumpEvent)>)
    requires
        forall|i: int| 0 <= i < events.len() ==> timer.last <= (#[trigger] events[i]).0,
        forall|i: int, j: int|
            0 <= i <= j < events.len() ==> (#[trigger] events[i]).0 <= (#[trigger] events[j]).0,
    ensures
        ({
            let t = timer_after(timer, events);
            &&& t.timeout_secs == timer.timeout_secs
            &&& timer.last <= t.last
            &&& forall|i: int|
                0 <= i < events.len() && is_data(#[trigger] events[i].1) ==> events[i].0 <= t.last
            &&& t.last == timer.last || exists|i: int|
                0 <= i < events.len() && is_data(#[trigger] events[i].1) && events[i].0 == t.last
        }),
    decreases events.len(),
{
    if events.len() > 0 {
        let front = events.drop_last();
        assert forall|i: int| 0 <= i < front.len() implies timer.last <= (#[trigger] front[i]).0 by {
            assert(front[i] == events[i]);
        }
        assert forall|i: int, j: int| 0 <= i <= j < front.len() implies (#[trigger] front[i]).0 <= (
        #[trigger] front[j]).0 by {
            assert(front[i] == events[i] && front[j] == events[j]);
        }
        lemma_last_activity(timer, front);
        let n = events.len() - 1;
        let before = timer_after(timer, front);
        let t = timer_after(timer, events);
        assert forall|i: int| 0 <= i < events.len() && is_data(#[trigger] events[i].1) implies
            events[i].0 <= t.last by {
            assert(events[i].0 <= events[n].0);
            if i < n {
                assert(is_data(front[i].1));
            }
        }
        if is_data(events[n].1) {
            assert(t.last == events[n].0);
        } else if before.last != timer.last {
            let i = choose|i: int|
                0 <= i < front.len() && is_data(#[trigger] front[i].1) && front[i].0
                    == before.last;
            assert(is_data(events[i].1) && events[i].0 == t.last);
        }
    }
}

/// One thing that happens in one direction, with the bytes that it is about. Of bytes whose writing
/// fails, so many have been written before.
pub enum Passing {
    Read(Seq<u8>),
    Interrupted,
    Failed,
    Expired,
    Written,
    WriteFailed(nat),
}

/// Something that happens in one direction, when, and the timer at that time. The other direction
/// may have changed the timer in between.
pub struct PassingTurn {
    pub timer: Option<IdleTimer>,
    pub now: u64,
    pub passing: Passing,
}

/// The event that something that happens is told as.
pub open spec fn event_of(p: Passing) -> PumpEvent {
    match p {
        Passing::Read(b) => PumpEvent::Read(b.len() as usize),
        Passing::Interrupted => PumpEvent::Interrupted,
        Passing::Failed => PumpEvent::Failed,
        Passing::Expired => PumpEvent::Expired,
        Passing::Written => PumpEvent::Written,
        Passing::WriteFailed(_) => PumpEvent::WriteFailed,
    }
}

/// One direction up to now: all bytes read, all bytes written, those that are being written, and
/// how it has ended, if it has.
#[verifier::ext_equal]
pub struct Transfer {
    pub read: Seq<u8>,
    pub written: Seq<u8>,
    pub pending: Seq<u8>,
    pub end: Option<PumpAction>,
}

/// One direction after one more thing that happens, where what the answer to it asks for is done.
pub open spec fn transfer_next(t: Transfer, turn: PassingTurn) -> Transfer {
    let action = pumped(turn.timer, turn.now, event_of(turn.passing));
    let met = match turn.passing {
        Passing::Read(b) => Transfer { read: t.read + b, ..t },
        Passing::Written => Transfer {
            written: t.written + t.pending,
            pending: Seq::empty(),
            ..t
        },
        Passing::WriteFailed(n) => Transfer {
            written: t.written + t.pending.take(n as int),
            pending: t.pending.skip(n as int),
            ..t
        },
        _ => t,
    };
    match (action, turn.passing) {
        (PumpAction::Write(n), Passing::Read(b)) => Transfer { pending: b.take(n as int), ..met },
        (PumpAction::Finish, _) | (PumpAction::Fail(_), _) => Transfer { end: Some(action), ..met },
        _ => met,
    }
}

/// One direction after all that happened in it.
pub open spec fn transfer(turns: Seq<PassingTurn>) -> Transfer
    decreases turns.len(),
{
    if turns.len() == 0 {
        Transfer { read: Seq::empty(), written: Seq::empty(), pending: Seq::empty(), end: None }
    } else {
        transfer_next(transfer(turns.drop_last()), turns.last())
    }
}

/// Whether something can happen in one direction: nothing after it has ended; while bytes are being
/// written nothing but that this succeeds or fails, and that only then; and no more bytes are read
/// than a buffer can hold.
pub open spec fn in_turn(t: Transfer, p: Passing) -> bool {
    &&& t.end is None
    &&& match p {
        Passing::Written => t.pending.len() > 0,
        Passing::WriteFailed(n) => n < t.pending.len(),
        Passing::Read(b) => t.pending.len() == 0 && b.len() <= usize::MAX,
        _ => t.pending.len() == 0,
    }
}

/// Whether everything that happened in one direction could happen when it did.
pub open spec fn orderly(turns: Seq<PassingTurn>) -> bool
    decreases turns.len(),
{
    turns.len() == 0 || {
        &&& orderly(turns.drop_last())
        &&& in_turn(transfer(turns.drop_last()), turns.last().passing)
    }
}

/// At every moment the bytes written in one direction are the first of the bytes read in it, in the
/// same order, with nothing added and nothing left out; the rest of those read is being written.
/// The direction finishes exactly when the end of what there is to read is met, and then all of it
/// has been written. An interrupted read is not reported and changes nothing. Any other error of
/// reading, and any error of writing, ends the direction with it. Else it ends only for being idle.
pub proof fn law_bytes_pass_in_order(turns: Seq<PassingTurn>)
    requires
        orderly(turns),
    ensures
        ({
            let t = transfer(turns);
            &&& t.read == t.written + t.pending
            &&& t.written.is_prefix_of(t.read)
            &&& turns.len() > 0 ==> {
                let before = transfer(turns.drop_last());
                let last = turns.last();
                &&& t.end == Some(PumpAction::Finish) <==> (last.passing matches Passing::Read(b)
                    && b.len() == 0)
                &&& t.end == Some(PumpAction::Finish) ==> t.written == t.read
                &&& last.passing is Interrupted ==> t == before
                &&& last.passing is Failed || last.passing is WriteFailed ==> t.end == Some(
                    PumpAction::Fail(Failure::Io),
                )
                &&& t.end == Some(PumpAction::Fail(Failure::Io)) ==> last.passing is Failed
                    || last.passing is WriteFailed
                &&& t.end == Some(PumpAction::Fail(Failure::IdleTimedOut)) <==> (last.passing
                    is Expired && last.timer is Some && last.now >= last.timer->0.deadline_nanos())
                &&& t.end is None || t.end == Some(PumpAction::Finish) || t.end == Some(
                    PumpAction::Fail(Failure::Io),
                ) || t.end == Some(PumpAction::Fail(Failure::IdleTimedOut))
            }
        }),
    decreases turns.len(),
{
    if turns.len() > 0 {
        law_bytes_pass_in_order(turns.drop_last());
        lemma_transfer_step(transfer(turns.drop_last()), turns.last());
    }
}

/// What one more thing that happens does to the bytes of one direction.
proof fn lemma_transfer_step(t: Transfer, turn: PassingTurn)
    requires
        t.read == t.written + t.pending,
        in_turn(t, turn.passing),
    ensures
        transfer_next(t, turn).read == transfer_next(t, turn).written + transfer_next(
            t,
            turn,
        ).pending,
{
    let next = transfer_next(t, turn);
    if let Passing::Read(b) = turn.passing {
        assert(t.pending =~= Seq::<u8>::empty());
        assert(b.take(b.len() as int) =~= b);
    }
    assert(next.read =~= next.written + next.pending);
}

/// The two directions of a connection.
pub enum Direction {
    Forth,
    Back,
}

/// Something that happens in one of the two directions, and when.
pub struct CopyTurn {
    pub direction: Direction,
    pub now: u64,
    pub passing: Passing,
}

/// Both directions of a connection up to now, the timer that they share, and how the relay has
/// ended, if it has.
pub struct Copying {
    pub timer: Option<IdleTimer>,
    pub forth: Transfer,
    pub back: Transfer,
    pub end: Option<PumpAction>,
}

impl Copying {
    /// What has happened in one direction.
    pub open spec fn on(self, direction: Direction) -> Transfer {
        match direction {
            Direction::Forth => self.forth,
            Direction::Back => self.back,
        }
    }
}

/// Both directions after one more thing that happens in one of them. What ends a direction ends the
/// relay.
pub open spec fn copying_next(c: Copying, turn: CopyTurn) -> Copying {
    let one = transfer_next(
        c.on(turn.direction),
        PassingTurn { timer: c.timer, now: turn.now, passing: turn.passing },
    );
    let timer = timed(c.timer, turn.now, event_of(turn.passing));
    match turn.direction {
        Direction::Forth => Copying { timer, forth: one, end: one.end, ..c },
        Direction::Back => Copying { timer, back: one, end: one.end, ..c },
    }
}

/// Both directions of a connection with these settings, whose relay started at `start`, after all
/// that happened in them.
pub open spec fn copying(s: Settings, start: u64, turns: Seq<CopyTurn>) -> Copying
    decreases turns.len(),
{
    if turns.len() == 0 {
        let none = transfer(Seq::empty());
        Copying { timer: first_timer(s, start), forth: none, back: none, end: None }
    } else {
        copying_next(copying(s, start, turns.drop_last()), turns.last())
    }
}

/// Whether everything that happened in the two directions could happen when it did: nothing happens
/// after the relay has ended.
pub open spec fn orderly_copying(s: Settings, start: u64, turns: Seq<CopyTurn>) -> bool
    decreases turns.len(),
{
    turns.len() == 0 || {
        let before = copying(s, start, turns.drop_last());
        &&& orderly_copying(s, start, turns.drop_last())
        &&& before.end is None
        &&& in_turn(before.on(turns.last().direction), turns.last().passing)
    }
}

/// In both directions at once, at every moment, the bytes written are the first of the bytes read,
/// in the same order. The relay ends as soon as either direction ends or fails, in the way that this
/// direction does, and the other has not ended then. There is a timer exactly where being idle is
/// limited.
pub proof fn law_either_direction_ends_the_relay(s: Settings, start: u64, turns: Seq<CopyTurn>)
    requires
        orderly_copying(s, start, turns),
    ensures
        ({
            let c = copying(s, start, turns);
            &&& c.forth.read == c.forth.written + c.forth.pending
            &&& c.back.read == c.back.written + c.back.pending
            &&& c.end is None <==> c.forth.end is None && c.back.end is None
            &&& c.forth.end is Some ==> c.end == c.forth.end && c.back.end is None
            &&& c.back.end is Some ==> c.end == c.back.end && c.forth.end is None
            &&& c.timer is Some <==> s.idle_limit() is Some
            &&& c.timer is Some ==> c.timer->0.timeout_secs == s.idle_limit()->0
        }),
    decreases turns.len(),
{
    if turns.len() == 0 {
        assert(Seq::<u8>::empty() + Seq::<u8>::empty() =~= Seq::<u8>::empty());
    } else {
        let before = copying(s, start, turns.drop_last());
        let last = turns.last();
        law_either_direction_ends_the_relay(s, start, turns.drop_last());
        lemma_transfer_step(
            before.on(last.direction),
            PassingTurn { timer: before.timer, now: last.now, passing: last.passing },
        );
    }
}

/// The relay of a connection has a timer exactly where the setting is not 0, and then the connection
/// counts as idle that many seconds after the relay has started.
pub proof fn law_first_deadline(s: Settings, now: u64)
    ensures
        first_timer(s, now) is Some <==> s.idle_timeout_secs != 0,
        first_timer(s, now) matches Some(t) ==> t.last == now && t.timeout_secs == s.idle_timeout_secs
            && t.deadline_nanos() == now + s.idle_timeout_secs * 1_000_000_000,
{
}

/// Bytes that are read start the time anew in both directions, and nothing else does.
pub proof fn law_what_counts_as_activity(timer: IdleTimer, now: u64, event: PumpEvent)
    ensures
        ({
            let next = timed(Some(timer), now, event);
            &&& next is Some
            &&& next->0.timeout_secs == timer.timeout_secs
            &&& match event {
                PumpEvent::Read(n) => n > 0 ==> next->0.deadline_nanos() == now + timer.timeout_secs
                    * 1_000_000_000,
                _ => next == Some(timer),
            }
            &&& event == PumpEvent::Read(0) ==> next == Some(timer)
            &&& timed(None, now, event) is None
        }),
{
}

} // verus!
