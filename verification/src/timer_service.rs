//! A timer service that multiplexes one hardware countdown timer among
//! many per-client software timers.
//!
//! Pending timers live in a deadline-ordered list of events; ties keep
//! insertion order, so no event is ever lost to a colliding deadline.
//! Each client also has a bitmask of fired, not-yet-polled timers, read
//! and cleared in one step by `completed_timers`.  The interrupt path
//! drains every expired event, re-arms periodic ones, and leaves the
//! hardware alarm on the soonest remaining deadline.

use vstd::prelude::*;

verus! {

/// Number of timer-service clients; client ids are 1-indexed at the
/// boundary and 0-indexed into the completion-state array.
pub const NUM_CLIENTS: usize = 2;

/// A timer id doubles as a bit position in a client's completion mask.
pub const TIMERS_PER_CLIENT: u32 = 32;

/// An absolute point on the monotonic timer's counter domain.
pub type Ticks = u64;

/// A per-client software timer number in `[0, TIMERS_PER_CLIENT)`.
pub type TimerId = u32;

#[derive(Clone, Copy, Debug, PartialEq, Eq, Structural)]
pub enum TimerServiceError {
    TimerOk,
    NoSuchTimer,
    TimerAlreadyExists,
}

/// The absolute deadline `duration_ms` ticks after `now`, saturating at
/// the top of the counter domain.
pub open spec fn ticks_after(now: Ticks, duration_ms: u32) -> Ticks {
    if now + duration_ms > u64::MAX {
        u64::MAX
    } else {
        (now + duration_ms) as u64
    }
}

/// Bit `t` of completion mask `mask`.
pub open spec fn bit_set(mask: u32, t: TimerId) -> bool {
    mask & (1u32 << t) != 0
}

/// One monotonic countdown/deadline timer device.
///
/// The multiplexer is written against this interface alone, so any
/// device, or a simulated clock for testing, can stand behind it.
pub trait HardwareTimer: Sized {
    /// Current tick of the device's monotonic counter.
    spec fn spec_now(&self) -> Ticks;

    /// The armed alarm deadline, if any.
    spec fn spec_alarm(&self) -> Option<Ticks>;

    /// Whether the device holds an unacknowledged interrupt.
    spec fn spec_irq_pending(&self) -> bool;

    /// One-time device setup.
    fn setup(&mut self);

    fn now(&self) -> (r: Ticks)
        ensures
            r == self.spec_now(),
    ;

    /// Computes a future absolute deadline from a relative duration.
    fn deadline(&self, duration_ms: u32) -> (r: Ticks)
        ensures
            r == ticks_after(self.spec_now(), duration_ms),
    ;

    /// Arms the alarm at an absolute deadline.
    fn set_alarm(&mut self, deadline: Ticks)
        ensures
            final(self).spec_alarm() == Some(deadline),
            final(self).spec_now() == old(self).spec_now(),
            final(self).spec_irq_pending() == old(self).spec_irq_pending(),
    ;

    /// Clears the device's pending-interrupt flag.
    fn ack_interrupt(&mut self)
        ensures
            !final(self).spec_irq_pending(),
            final(self).spec_now() == old(self).spec_now(),
            final(self).spec_alarm() == old(self).spec_alarm(),
    ;
}

/// A simulated clock: time advances only when the test driving it says
/// so, and passing an armed alarm deadline raises the interrupt flag.
pub struct FakeTimer {
    ticks: Ticks,
    alarm: Option<Ticks>,
    irq: bool,
}

impl FakeTimer {
    pub fn new() -> (r: Self)
        ensures
            r.spec_now() == 0,
            r.spec_alarm() is None,
            !r.spec_irq_pending(),
    {
        FakeTimer { ticks: 0, alarm: None, irq: false }
    }

    /// The deadline the alarm is armed at, if any.
    pub fn armed_alarm(&self) -> (r: Option<Ticks>)
        ensures
            r == self.spec_alarm(),
    {
        self.alarm
    }

    /// Whether the clock holds an unacknowledged interrupt.
    pub fn irq_pending(&self) -> (r: bool)
        ensures
            r == self.spec_irq_pending(),
    {
        self.irq
    }

    /// Moves the simulated clock forward to `t`; if an armed alarm
    /// deadline has been reached, the interrupt flag comes up.
    pub fn advance_to(&mut self, t: Ticks)
        requires
            old(self).spec_now() <= t,
        ensures
            final(self).spec_now() == t,
            final(self).spec_alarm() == old(self).spec_alarm(),
            final(self).spec_irq_pending() == (old(self).spec_irq_pending() || (
            old(self).spec_alarm() matches Some(d) && d <= t)),
    {
        self.ticks = t;
        match self.alarm {
            Some(d) => {
                if d <= t {
                    self.irq = true;
                }
            },
            None => {},
        }
    }
}

impl HardwareTimer for FakeTimer {
    closed spec fn spec_now(&self) -> Ticks {
        self.ticks
    }

    closed spec fn spec_alarm(&self) -> Option<Ticks> {
        self.alarm
    }

    closed spec fn spec_irq_pending(&self) -> bool {
        self.irq
    }

    fn setup(&mut self) {
        self.ticks = 0;
        self.alarm = None;
        self.irq = false;
    }

    fn now(&self) -> (r: Ticks) {
        self.ticks
    }

    fn deadline(&self, duration_ms: u32) -> (r: Ticks) {
        self.ticks.saturating_add(duration_ms as u64)
    }

    fn set_alarm(&mut self, deadline: Ticks) {
        self.alarm = Some(deadline);
    }

    fn ack_interrupt(&mut self) {
        self.irq = false;
    }
}

/// A future timeout: the deadline it comes due at, the client to notify,
/// which of the client's timers it is, and, for a periodic timer, the
/// period to re-arm with.
#[derive(Clone, Copy)]
pub struct Event {
    pub deadline: Ticks,
    pub client_id: usize,
    pub timer_id: TimerId,
    pub recurring: Option<u32>,
}

/// `ev` belongs to the logical timer `(client_id, timer_id)`.
pub open spec fn is_for(ev: Event, client_id: usize, timer_id: TimerId) -> bool {
    ev.client_id == client_id && ev.timer_id == timer_id
}

/// Deadlines never decrease along the list.
pub open spec fn events_sorted(s: Seq<Event>) -> bool {
    forall|i: int, j: int| 0 <= i < j < s.len() ==> s[i].deadline <= s[j].deadline
}

/// At most one pending event per `(client_id, timer_id)` pair.
pub open spec fn pairs_unique(s: Seq<Event>) -> bool {
    forall|i: int, j: int|
        0 <= i < j < s.len() ==> !is_for(#[trigger] s[j], (#[trigger] s[i]).client_id, s[i].timer_id)
}

/// Every event is for a valid client and timer id.
pub open spec fn ids_valid(s: Seq<Event>) -> bool {
    forall|i: int|
        0 <= i < s.len() ==> 1 <= (#[trigger] s[i]).client_id <= NUM_CLIENTS && s[i].timer_id
            < TIMERS_PER_CLIENT
}

/// The logical timer `(c, t)` has a pending event.
pub open spec fn has_timer(s: Seq<Event>, c: usize, t: TimerId) -> bool {
    exists|i: int| 0 <= i < s.len() && is_for(#[trigger] s[i], c, t)
}

/// Index of the pending event of `(c, t)`; meaningful under `pairs_unique`.
pub open spec fn timer_index(s: Seq<Event>, c: usize, t: TimerId) -> int {
    choose|i: int| 0 <= i < s.len() && is_for(#[trigger] s[i], c, t)
}

/// Deadline of the pending event of `(c, t)`.
pub open spec fn timer_deadline(s: Seq<Event>, c: usize, t: TimerId) -> Ticks {
    s[timer_index(s, c, t)].deadline
}

/// Period of the pending event of `(c, t)`, if it is periodic.
pub open spec fn timer_recurring(s: Seq<Event>, c: usize, t: TimerId) -> Option<u32> {
    s[timer_index(s, c, t)].recurring
}

/// Under `pairs_unique`, any index holding the pair is the pair's index:
/// the lookup spec functions read exactly that event.
pub proof fn lemma_timer_lookup(s: Seq<Event>, c: usize, t: TimerId, i: int)
    requires
        pairs_unique(s),
        0 <= i < s.len(),
        is_for(s[i], c, t),
    ensures
        has_timer(s, c, t),
        timer_index(s, c, t) == i,
        timer_deadline(s, c, t) == s[i].deadline,
        timer_recurring(s, c, t) == s[i].recurring,
{
    assert(has_timer(s, c, t));
    let j = timer_index(s, c, t);
    if j < i {
        assert(!is_for(s[i], s[j].client_id, s[j].timer_id));
    } else if j > i {
        assert(!is_for(s[j], s[i].client_id, s[i].timer_id));
    }
}

/// Inserting a fresh pair at its sort position keeps order, uniqueness
/// and id validity, adds exactly that pair, and leaves every other
/// pair's lookup unchanged.
pub proof fn lemma_insert_event(s: Seq<Event>, ev: Event, j: int)
    requires
        events_sorted(s),
        pairs_unique(s),
        0 <= j <= s.len(),
        !has_timer(s, ev.client_id, ev.timer_id),
        forall|k: int| 0 <= k < j ==> s[k].deadline <= ev.deadline,
        forall|k: int| j <= k < s.len() ==> s[k].deadline > ev.deadline,
    ensures
        events_sorted(s.insert(j, ev)),
        pairs_unique(s.insert(j, ev)),
        ids_valid(s) && 1 <= ev.client_id <= NUM_CLIENTS && ev.timer_id < TIMERS_PER_CLIENT
            ==> ids_valid(s.insert(j, ev)),
        timer_deadline(s.insert(j, ev), ev.client_id, ev.timer_id) == ev.deadline,
        timer_recurring(s.insert(j, ev), ev.client_id, ev.timer_id) == ev.recurring,
        forall|c: usize, t: TimerId|
            #[trigger] has_timer(s.insert(j, ev), c, t) <==> (has_timer(s, c, t) || is_for(
                ev,
                c,
                t,
            )),
        forall|c: usize, t: TimerId|
            has_timer(s, c, t) ==> #[trigger] timer_deadline(s.insert(j, ev), c, t)
                == timer_deadline(s, c, t) && timer_recurring(s.insert(j, ev), c, t)
                == timer_recurring(s, c, t),
{
    let s2 = s.insert(j, ev);
    s.insert_ensures(j, ev);
    assert forall|i1: int, i2: int|
        0 <= i1 < i2 < s2.len() implies !is_for(
        #[trigger] s2[i2],
        (#[trigger] s2[i1]).client_id,
        s2[i1].timer_id,
    ) by {
        if i1 == j {
            assert(s2[i2] == s[i2 - 1]);
            assert(has_timer(s, ev.client_id, ev.timer_id) <== is_for(
                s[i2 - 1],
                ev.client_id,
                ev.timer_id,
            ));
        } else if i2 == j {
            assert(s2[i1] == s[i1]);
            assert(has_timer(s, ev.client_id, ev.timer_id) <== is_for(
                s[i1],
                ev.client_id,
                ev.timer_id,
            ));
        }
    }
    assert forall|c: usize, t: TimerId|
        #[trigger] has_timer(s2, c, t) implies (has_timer(s, c, t) || is_for(ev, c, t)) by {
        let w = choose|w: int| 0 <= w < s2.len() && is_for(s2[w], c, t);
        if w < j {
            assert(is_for(s[w], c, t));
        } else if w > j {
            assert(is_for(s[w - 1], c, t));
        }
    }
    assert forall|c: usize, t: TimerId|
        (has_timer(s, c, t) || is_for(ev, c, t)) implies #[trigger] has_timer(s2, c, t) by {
        if has_timer(s, c, t) {
            let w = choose|w: int| 0 <= w < s.len() && is_for(#[trigger] s[w], c, t);
            if w < j {
                assert(is_for(s2[w], c, t));
            } else {
                assert(is_for(s2[w + 1], c, t));
            }
        } else {
            assert(is_for(s2[j], c, t));
        }
    }
    assert forall|c: usize, t: TimerId| has_timer(s, c, t) implies #[trigger] timer_deadline(
        s2,
        c,
        t,
    ) == timer_deadline(s, c, t) && timer_recurring(s2, c, t) == timer_recurring(s, c, t) by {
        let w = choose|w: int| 0 <= w < s.len() && is_for(#[trigger] s[w], c, t);
        lemma_timer_lookup(s, c, t, w);
        if w < j {
            assert(s2[w] == s[w]);
            lemma_timer_lookup(s2, c, t, w);
        } else {
            assert(s2[w + 1] == s[w]);
            lemma_timer_lookup(s2, c, t, w + 1);
        }
    }
    lemma_timer_lookup(s2, ev.client_id, ev.timer_id, j);
}

/// Removing one event keeps order, uniqueness and id validity, retires
/// exactly its pair, and leaves every other pair's lookup unchanged.
pub proof fn lemma_remove_event(s: Seq<Event>, i: int)
    requires
        events_sorted(s),
        pairs_unique(s),
        0 <= i < s.len(),
    ensures
        events_sorted(s.remove(i)),
        pairs_unique(s.remove(i)),
        ids_valid(s) ==> ids_valid(s.remove(i)),
        !has_timer(s.remove(i), s[i].client_id, s[i].timer_id),
        forall|c: usize, t: TimerId|
            #[trigger] has_timer(s.remove(i), c, t) <==> (has_timer(s, c, t) && !is_for(
                s[i],
                c,
                t,
            )),
        forall|c: usize, t: TimerId|
            has_timer(s, c, t) && !is_for(s[i], c, t) ==> #[trigger] timer_deadline(
                s.remove(i),
                c,
                t,
            ) == timer_deadline(s, c, t) && timer_recurring(s.remove(i), c, t) == timer_recurring(
                s,
                c,
                t,
            ),
{
    let s2 = s.remove(i);
    s.remove_ensures(i);
    assert forall|c: usize, t: TimerId|
        #[trigger] has_timer(s2, c, t) implies (has_timer(s, c, t) && !is_for(s[i], c, t)) by {
        let w = choose|w: int| 0 <= w < s2.len() && is_for(s2[w], c, t);
        if w < i {
            assert(is_for(s[w], c, t));
            if is_for(s[i], c, t) {
                assert(!is_for(s[i], s[w].client_id, s[w].timer_id));
            }
        } else {
            assert(is_for(s[w + 1], c, t));
            if is_for(s[i], c, t) {
                assert(!is_for(s[w + 1], s[i].client_id, s[i].timer_id));
            }
        }
    }
    assert forall|c: usize, t: TimerId|
        has_timer(s, c, t) && !is_for(s[i], c, t) implies #[trigger] has_timer(s2, c, t) by {
        let w = choose|w: int| 0 <= w < s.len() && is_for(#[trigger] s[w], c, t);
        if w < i {
            assert(is_for(s2[w], c, t));
        } else {
            assert(w != i);
            assert(is_for(s2[w - 1], c, t));
        }
    }
    assert forall|c: usize, t: TimerId|
        has_timer(s, c, t) && !is_for(s[i], c, t) implies #[trigger] timer_deadline(s2, c, t)
        == timer_deadline(s, c, t) && timer_recurring(s2, c, t) == timer_recurring(s, c, t) by {
        let w = choose|w: int| 0 <= w < s.len() && is_for(#[trigger] s[w], c, t);
        lemma_timer_lookup(s, c, t, w);
        if w < i {
            assert(s2[w] == s[w]);
            lemma_timer_lookup(s2, c, t, w);
        } else {
            assert(w > i);
            assert(s2[w - 1] == s[w]);
            lemma_timer_lookup(s2, c, t, w - 1);
        }
    }
    if has_timer(s2, s[i].client_id, s[i].timer_id) {
        assert(has_timer(s, s[i].client_id, s[i].timer_id) && !is_for(
            s[i],
            s[i].client_id,
            s[i].timer_id,
        ));
    }
}

/// Setting bit `t` of a mask leaves every other bit as it was.
pub proof fn lemma_mask_or_bit(mask: u32, t: u32, q: u32)
    requires
        t < 32,
        q < 32,
    ensures
        bit_set(mask | (1u32 << t), q) <==> (bit_set(mask, q) || q == t),
{
    assert((mask | (1u32 << t)) & (1u32 << q) != 0 <==> (mask & (1u32 << q) != 0 || q == t))
        by (bit_vector)
        requires
            t < 32 && q < 32,
    ;
}

/// Inserts `ev` into a deadline-sorted list, after every event with the
/// same or an earlier deadline: ties keep insertion order.  Returns the
/// insertion position.
fn insert_event(events: &mut Vec<Event>, ev: Event) -> (j: usize)
    requires
        events_sorted(old(events)@),
    ensures
        j <= old(events)@.len(),
        final(events)@ == old(events)@.insert(j as int, ev),
        forall|k: int| 0 <= k < j ==> old(events)@[k].deadline <= ev.deadline,
        forall|k: int| j <= k < old(events)@.len() ==> old(events)@[k].deadline > ev.deadline,
{
    let n = events.len();
    let mut j: usize = 0;
    while j < n && events[j].deadline <= ev.deadline
        invariant
            j <= n,
            n == events@.len(),
            events@ == old(events)@,
            forall|k: int| 0 <= k < j ==> events@[k].deadline <= ev.deadline,
            events_sorted(events@),
        decreases n - j,
    {
        j += 1;
    }
    proof {
        assert forall|k: int| j <= k < events@.len() implies events@[k].deadline > ev.deadline by {
            if j < events@.len() {
                assert(events@[j as int].deadline > ev.deadline);
            }
        }
    }
    events.insert(j, ev);
    j
}

/// The timer multiplexer: one hardware timer device, the deadline-ordered
/// pending events, and one completion bitmask per client.
pub struct KataTimerService<T: HardwareTimer> {
    pub timer: T,
    events: Vec<Event>,
    timer_state: Vec<u32>,
}

impl<T: HardwareTimer> KataTimerService<T> {
    /// The pending events, soonest deadline first.
    pub closed spec fn evs(&self) -> Seq<Event> {
        self.events@
    }

    /// The per-client masks of fired, not-yet-polled timers.
    pub closed spec fn state(&self) -> Seq<u32> {
        self.timer_state@
    }

    /// The hardware timer device the service drives.
    pub closed spec fn spec_timer(&self) -> T {
        self.timer
    }

    pub open spec fn wf(&self) -> bool {
        &&& events_sorted(self.evs())
        &&& pairs_unique(self.evs())
        &&& ids_valid(self.evs())
        &&& self.state().len() == NUM_CLIENTS
    }

    pub fn new(timer: T) -> (r: Self)
        ensures
            r.wf(),
            r.evs() =~= Seq::<Event>::empty(),
            r.state() =~= Seq::new(NUM_CLIENTS as nat, |i: int| 0u32),
            r.spec_timer() == timer,
    {
        KataTimerService { timer, events: Vec::new(), timer_state: vec![0u32; NUM_CLIENTS] }
    }

    /// One-time setup of the hardware timer.
    pub fn init(&mut self)
        requires
            old(self).wf(),
        ensures
            final(self).wf(),
            final(self).evs() == old(self).evs(),
            final(self).state() == old(self).state(),
    {
        self.timer.setup();
    }

    /// Read-and-clear poll of a client's completion mask: returns the
    /// bitmask of fired, not-yet-polled timers and resets it to zero as
    /// part of the same call, so an immediate second poll returns zero.
    pub fn completed_timers(&mut self, client_id: usize) -> (r: u32)
        requires
            old(self).wf(),
            1 <= client_id <= NUM_CLIENTS,
        ensures
            final(self).wf(),
            r == old(self).state()[client_id - 1],
            final(self).state() =~= old(self).state().update(client_id - 1, 0u32),
            final(self).evs() == old(self).evs(),
            final(self).spec_timer() == old(self).spec_timer(),
    {
        // client_id is 1-indexed at the boundary, timer_state is 0-indexed.
        let client = client_id - 1;
        let state = self.timer_state[client];
        self.timer_state[client] = 0;
        state
    }

    /// Arms software timer `timer_id` of `client_id` to come due
    /// `duration_ms` from now, periodic if asked, then re-arms the
    /// hardware alarm to the soonest pending deadline.  Fails with
    /// `TimerAlreadyExists`, changing nothing, exactly when the pair
    /// already has a pending event.
    pub fn add(
        &mut self,
        client_id: usize,
        timer_id: TimerId,
        duration_ms: u32,
        periodic: bool,
    ) -> (r: Result<(), TimerServiceError>)
        requires
            old(self).wf(),
            1 <= client_id <= NUM_CLIENTS,
            timer_id < TIMERS_PER_CLIENT,
        ensures
            final(self).wf(),
            final(self).state() == old(self).state(),
            r == Ok::<(), TimerServiceError>(()) || r == Err::<(), TimerServiceError>(
                TimerServiceError::TimerAlreadyExists,
            ),
            r == Err::<(), TimerServiceError>(TimerServiceError::TimerAlreadyExists) <==> has_timer(
                old(self).evs(),
                client_id,
                timer_id,
            ),
            r == Err::<(), TimerServiceError>(TimerServiceError::TimerAlreadyExists)
                ==> *final(self) == *old(self),
            r == Ok::<(), TimerServiceError>(()) ==> {
                &&& final(self).evs().len() == old(self).evs().len() + 1
                &&& has_timer(final(self).evs(), client_id, timer_id)
                &&& timer_deadline(final(self).evs(), client_id, timer_id) == ticks_after(
                    old(self).spec_timer().spec_now(),
                    duration_ms,
                )
                &&& timer_recurring(final(self).evs(), client_id, timer_id) == (if periodic {
                    Some(duration_ms)
                } else {
                    None::<u32>
                })
                &&& forall|c: usize, t: TimerId|
                    #[trigger] has_timer(final(self).evs(), c, t) <==> (has_timer(
                        old(self).evs(),
                        c,
                        t,
                    ) || (c == client_id && t == timer_id))
                &&& forall|c: usize, t: TimerId|
                    has_timer(old(self).evs(), c, t) ==> #[trigger] timer_deadline(
                        final(self).evs(),
                        c,
                        t,
                    ) == timer_deadline(old(self).evs(), c, t) && timer_recurring(
                        final(self).evs(),
                        c,
                        t,
                    ) == timer_recurring(old(self).evs(), c, t)
                &&& final(self).spec_timer().spec_now() == old(self).spec_timer().spec_now()
                &&& final(self).spec_timer().spec_alarm() == Some(final(self).evs()[0].deadline)
            },
    {
        let n = self.events.len();
        let mut i: usize = 0;
        while i < n
            invariant
                i <= n,
                n == self.events@.len(),
                *self == *old(self),
                self.wf(),
                forall|k: int| 0 <= k < i ==> !is_for(#[trigger] self.events@[k], client_id, timer_id),
            decreases n - i,
        {
            let ev = self.events[i];
            if ev.client_id == client_id && ev.timer_id == timer_id {
                proof {
                    assert(is_for(self.events@[i as int], client_id, timer_id));
                }
                return Err(TimerServiceError::TimerAlreadyExists);
            }
            i += 1;
        }
        proof {
            if has_timer(self.events@, client_id, timer_id) {
                let w = choose|w: int|
                    0 <= w < self.events@.len() && is_for(#[trigger] self.events@[w], client_id, timer_id);
                assert(!is_for(self.events@[w], client_id, timer_id));
            }
        }
        let deadline = self.timer.deadline(duration_ms);
        let recurring = if periodic {
            Some(duration_ms)
        } else {
            None
        };
        let ev = Event { deadline, client_id, timer_id, recurring };
        let j = insert_event(&mut self.events, ev);
        proof {
            lemma_insert_event(old(self).evs(), ev, j as int);
        }
        // The next deadline is always the head of the ordered list.
        let d0 = self.events[0].deadline;
        self.timer.set_alarm(d0);
        Ok(())
    }

    /// Disarms the pending timer of `(client_id, timer_id)`.  Fails with
    /// `NoSuchTimer`, changing nothing, exactly when no such timer is
    /// pending.  The hardware alarm is left as it was; at worst it fires
    /// early and finds nothing due.
    pub fn cancel(&mut self, client_id: usize, timer_id: TimerId) -> (r: Result<
        (),
        TimerServiceError,
    >)
        requires
            old(self).wf(),
            1 <= client_id <= NUM_CLIENTS,
            timer_id < TIMERS_PER_CLIENT,
        ensures
            final(self).wf(),
            final(self).state() == old(self).state(),
            final(self).spec_timer() == old(self).spec_timer(),
            r == Ok::<(), TimerServiceError>(()) || r == Err::<(), TimerServiceError>(
                TimerServiceError::NoSuchTimer,
            ),
            r == Err::<(), TimerServiceError>(TimerServiceError::NoSuchTimer) <==> !has_timer(
                old(self).evs(),
                client_id,
                timer_id,
            ),
            r == Err::<(), TimerServiceError>(TimerServiceError::NoSuchTimer) ==> *final(self)
                == *old(self),
            r == Ok::<(), TimerServiceError>(()) ==> {
                &&& final(self).evs().len() == old(self).evs().len() - 1
                &&& !has_timer(final(self).evs(), client_id, timer_id)
                &&& forall|c: usize, t: TimerId|
                    #[trigger] has_timer(final(self).evs(), c, t) <==> (has_timer(
                        old(self).evs(),
                        c,
                        t,
                    ) && !(c == client_id && t == timer_id))
                &&& forall|c: usize, t: TimerId|
                    has_timer(old(self).evs(), c, t) && !(c == client_id && t == timer_id)
                        ==> #[trigger] timer_deadline(final(self).evs(), c, t) == timer_deadline(
                        old(self).evs(),
                        c,
                        t,
                    ) && timer_recurring(final(self).evs(), c, t) == timer_recurring(
                        old(self).evs(),
                        c,
                        t,
                    )
            },
    {
        let n = self.events.len();
        let mut i: usize = 0;
        while i < n
            invariant
                i <= n,
                n == self.events@.len(),
                *self == *old(self),
                self.wf(),
                forall|k: int| 0 <= k < i ==> !is_for(#[trigger] self.events@[k], client_id, timer_id),
            decreases n - i,
        {
            let ev = self.events[i];
            if ev.client_id == client_id && ev.timer_id == timer_id {
                proof {
                    assert(is_for(self.events@[i as int], client_id, timer_id));
                    lemma_remove_event(self.events@, i as int);
                }
                self.events.remove(i);
                return Ok(());
            }
            i += 1;
        }
        proof {
            if has_timer(self.events@, client_id, timer_id) {
                let w = choose|w: int|
                    0 <= w < self.events@.len() && is_for(#[trigger] self.events@[w], client_id, timer_id);
                assert(!is_for(self.events@[w], client_id, timer_id));
            }
        }
        Err(TimerServiceError::NoSuchTimer)
    }

    /// Interrupt service: acknowledges the device exactly once, drains
    /// every event whose deadline has been reached (a timer due exactly
    /// now fires in this interrupt, not the next), marks each fired timer
    /// in its client's completion mask, re-arms each periodic one a full
    /// period after now, and leaves the hardware alarm on the soonest
    /// remaining deadline.  Returns the client to notify for each fired
    /// event, in deadline order.
    #[verifier::rlimit(100)]
    #[verifier::spinoff_prover]
    pub fn service_interrupt(&mut self) -> (fired: Vec<usize>)
        requires
            old(self).wf(),
        ensures
            final(self).wf(),
            final(self).spec_timer().spec_now() == old(self).spec_timer().spec_now(),
            !final(self).spec_timer().spec_irq_pending(),
            interrupt_transition(
                old(self).evs(),
                final(self).evs(),
                old(self).state(),
                final(self).state(),
                old(self).spec_timer().spec_now(),
            ),
            final(self).evs().len() > 0 ==> final(self).spec_timer().spec_alarm() == Some(
                final(self).evs()[0].deadline,
            ),
            final(self).evs().len() == 0 ==> final(self).spec_timer().spec_alarm() == old(
                self,
            ).spec_timer().spec_alarm(),
            notifications_ok(old(self).evs(), old(self).spec_timer().spec_now(), fired@),
    {
        self.timer.ack_interrupt();
        let now = self.timer.now();
        let k = count_due(&self.events, now);
        let tail = tail_events(&self.events, k);
        let (kept, fired) = drain_due(&self.timer, now, &self.events, k, tail, &mut self.timer_state);
        let ghost kept_final = kept@;
        let ghost state_final = self.timer_state@;
        self.events = kept;
        proof {
            assert(self.events@ == kept_final);
            lemma_drain_post(
                old(self).evs(),
                self.events@,
                old(self).state(),
                self.timer_state@,
                now,
                k as int,
            );
            assert(interrupt_transition(
                old(self).evs(),
                kept_final,
                old(self).state(),
                state_final,
                now,
            ));
            assert(notifications_ok(old(self).evs(), now, fired@));
        }
        // The new soonest deadline, if any event remains; otherwise the
        // hardware stays as it is.
        if self.events.len() > 0 {
            let d0 = self.events[0].deadline;
            self.timer.set_alarm(d0);
        }
        proof {
            assert(self.events@ == kept_final);
            assert(self.timer_state@ == state_final);
        }
        fired
    }
}

/// The number of due events: the due events are exactly a prefix of the
/// deadline-ordered list.
fn count_due(events: &Vec<Event>, now: Ticks) -> (k: usize)
    requires
        events_sorted(events@),
    ensures
        k <= events@.len(),
        forall|i2: int| 0 <= i2 < k ==> (#[trigger] events@[i2]).deadline <= now,
        forall|i2: int| k <= i2 < events@.len() ==> (#[trigger] events@[i2]).deadline > now,
{
    let n = events.len();
    let mut k: usize = 0;
    while k < n && events[k].deadline <= now
        invariant
            k <= n,
            n == events@.len(),
            events_sorted(events@),
            forall|i2: int| 0 <= i2 < k ==> (#[trigger] events@[i2]).deadline <= now,
        decreases n - k,
    {
        k += 1;
    }
    proof {
        assert forall|i2: int|
            k <= i2 < events@.len() implies (#[trigger] events@[i2]).deadline > now by {
            if k < n {
                assert(events@[k as int].deadline > now);
            }
        }
    }
    k
}

/// Copies the not-yet-due suffix of the event list.
fn tail_events(events: &Vec<Event>, k: usize) -> (kept: Vec<Event>)
    requires
        k <= events@.len(),
    ensures
        kept@ == events@.subrange(k as int, events@.len() as int),
{
    let n = events.len();
    let mut kept: Vec<Event> = Vec::new();
    let mut i: usize = k;
    while i < n
        invariant
            k <= i <= n,
            n == events@.len(),
            kept@ == events@.subrange(k as int, i as int),
        decreases n - i,
    {
        let ev = events[i];
        proof {
            assert(events@.subrange(k as int, i + 1) =~= events@.subrange(k as int, i as int).push(
                events@[i as int],
            ));
        }
        kept.push(ev);
        i += 1;
    }
    kept
}

/// Drains the due prefix `events[0, k)`: sets each fired timer's bit in
/// its client's completion mask, queues one notification per fired event
/// in deadline order, and re-inserts each periodic event one period
/// after now into the kept list.
#[verifier::rlimit(100)]
#[verifier::spinoff_prover]
fn drain_due<T: HardwareTimer>(
    timer: &T,
    now: Ticks,
    events: &Vec<Event>,
    k: usize,
    tail: Vec<Event>,
    timer_state: &mut Vec<u32>,
) -> (out: (Vec<Event>, Vec<usize>))
    requires
        now == timer.spec_now(),
        events_sorted(events@),
        pairs_unique(events@),
        ids_valid(events@),
        k <= events@.len(),
        forall|i2: int| 0 <= i2 < k ==> (#[trigger] events@[i2]).deadline <= now,
        forall|i2: int| k <= i2 < events@.len() ==> (#[trigger] events@[i2]).deadline > now,
        tail@ == events@.subrange(k as int, events@.len() as int),
        old(timer_state)@.len() == NUM_CLIENTS,
    ensures
        final(timer_state)@.len() == NUM_CLIENTS,
        events_sorted(out.0@),
        pairs_unique(out.0@),
        ids_valid(out.0@),
        forall|i2: int|
            k <= i2 < events@.len() ==> #[trigger] has_timer(
                out.0@,
                events@[i2].client_id,
                events@[i2].timer_id,
            ) && timer_deadline(out.0@, events@[i2].client_id, events@[i2].timer_id)
                == events@[i2].deadline && timer_recurring(
                out.0@,
                events@[i2].client_id,
                events@[i2].timer_id,
            ) == events@[i2].recurring,
        forall|i2: int|
            0 <= i2 < k && (#[trigger] events@[i2]).recurring is Some ==> has_timer(
                out.0@,
                events@[i2].client_id,
                events@[i2].timer_id,
            ) && timer_deadline(out.0@, events@[i2].client_id, events@[i2].timer_id)
                == ticks_after(now, events@[i2].recurring->0) && timer_recurring(
                out.0@,
                events@[i2].client_id,
                events@[i2].timer_id,
            ) == events@[i2].recurring,
        forall|c: usize, t: TimerId|
            #[trigger] has_timer(out.0@, c, t) ==> (exists|i2: int|
                k <= i2 < events@.len() && #[trigger] is_for(events@[i2], c, t)) || (exists|
                i2: int,
            |
                0 <= i2 < k && #[trigger] is_for(events@[i2], c, t) && events@[i2].recurring
                    is Some),
        forall|c: usize, t: TimerId|
            1 <= c <= NUM_CLIENTS && t < TIMERS_PER_CLIENT ==> (#[trigger] bit_set(
                final(timer_state)@[c - 1],
                t,
            ) <==> (bit_set(old(timer_state)@[c - 1], t) || (exists|i2: int|
                0 <= i2 < k && #[trigger] is_for(events@[i2], c, t)))),
        out.1@.len() == k,
        forall|i2: int| 0 <= i2 < k ==> #[trigger] out.1@[i2] == events@[i2].client_id,
{
    let n = events.len();
    let mut kept = tail;
    proof {
        lemma_subrange_wf(events@, k as int, n as int);
    }
    let mut fired: Vec<usize> = Vec::new();
    let mut j: usize = 0;
    while j < k
        invariant
            j <= k <= n,
            n == events@.len(),
            now == timer.spec_now(),
            events_sorted(events@),
            pairs_unique(events@),
            ids_valid(events@),
            forall|i2: int| 0 <= i2 < k ==> (#[trigger] events@[i2]).deadline <= now,
            forall|i2: int| k <= i2 < n ==> (#[trigger] events@[i2]).deadline > now,
            events_sorted(kept@),
            pairs_unique(kept@),
            ids_valid(kept@),
            forall|i2: int|
                k <= i2 < n ==> #[trigger] has_timer(
                    kept@,
                    events@[i2].client_id,
                    events@[i2].timer_id,
                ) && timer_deadline(kept@, events@[i2].client_id, events@[i2].timer_id)
                    == events@[i2].deadline && timer_recurring(
                    kept@,
                    events@[i2].client_id,
                    events@[i2].timer_id,
                ) == events@[i2].recurring,
            forall|i2: int|
                0 <= i2 < j && (#[trigger] events@[i2]).recurring is Some ==> has_timer(
                    kept@,
                    events@[i2].client_id,
                    events@[i2].timer_id,
                ) && timer_deadline(kept@, events@[i2].client_id, events@[i2].timer_id)
                    == ticks_after(now, events@[i2].recurring->0) && timer_recurring(
                    kept@,
                    events@[i2].client_id,
                    events@[i2].timer_id,
                ) == events@[i2].recurring,
            forall|c: usize, t: TimerId|
                #[trigger] has_timer(kept@, c, t) ==> (exists|i2: int|
                    k <= i2 < n && #[trigger] is_for(events@[i2], c, t)) || (exists|i2: int|
                    0 <= i2 < j && #[trigger] is_for(events@[i2], c, t) && events@[i2].recurring
                        is Some),
            fired@.len() == j,
            forall|i2: int| 0 <= i2 < j ==> #[trigger] fired@[i2] == events@[i2].client_id,
            timer_state@.len() == NUM_CLIENTS,
            forall|c: usize, t: TimerId|
                1 <= c <= NUM_CLIENTS && t < TIMERS_PER_CLIENT ==> (#[trigger] bit_set(
                    timer_state@[c - 1],
                    t,
                ) <==> (bit_set(old(timer_state)@[c - 1], t) || (exists|i2: int|
                    0 <= i2 < j && #[trigger] is_for(events@[i2], c, t)))),
        decreases k - j,
    {
        let ev = events[j];
        proof {
            assert(ev == events@[j as int]);
        }
        // client_id is 1-indexed at the boundary, timer_state is 0-indexed.
        let cli = ev.client_id - 1;
        let mask = timer_state[cli];
        timer_state[cli] = mask | (1u32 << ev.timer_id);
        proof {
            assert forall|c: usize, t: TimerId|
                1 <= c <= NUM_CLIENTS && t < TIMERS_PER_CLIENT implies (#[trigger] bit_set(
                timer_state@[c - 1],
                t,
            ) <==> (bit_set(old(timer_state)@[c - 1], t) || (exists|i2: int|
                0 <= i2 < j + 1 && #[trigger] is_for(events@[i2], c, t)))) by {
                if c == ev.client_id {
                    lemma_mask_or_bit(mask, ev.timer_id, t);
                    if t == ev.timer_id {
                        assert(is_for(events@[j as int], c, t));
                    }
                }
                if exists|i2: int| 0 <= i2 < j && #[trigger] is_for(events@[i2], c, t) {
                    let w = choose|i2: int| 0 <= i2 < j && #[trigger] is_for(events@[i2], c, t);
                    assert(0 <= w < j + 1 && is_for(events@[w], c, t));
                }
                if (exists|i2: int| 0 <= i2 < j + 1 && #[trigger] is_for(events@[i2], c, t)) && !(
                exists|i2: int| 0 <= i2 < j && #[trigger] is_for(events@[i2], c, t)) && !is_for(
                    events@[j as int],
                    c,
                    t,
                ) {
                    let w = choose|i2: int| 0 <= i2 < j + 1 && #[trigger] is_for(events@[i2], c, t);
                    assert(0 <= w < j && is_for(events@[w], c, t));
                }
            }
        }
        fired.push(ev.client_id);
        match ev.recurring {
            Some(p) => {
                let nd = timer.deadline(p);
                proof {
                    if has_timer(kept@, ev.client_id, ev.timer_id) {
                        if exists|i2: int|
                            k <= i2 < n && #[trigger] is_for(events@[i2], ev.client_id, ev.timer_id) {
                            let w = choose|i2: int|
                                k <= i2 < n && #[trigger] is_for(
                                    events@[i2],
                                    ev.client_id,
                                    ev.timer_id,
                                );
                            assert(!is_for(
                                events@[w],
                                events@[j as int].client_id,
                                events@[j as int].timer_id,
                            ));
                        } else {
                            let w = choose|i2: int|
                                0 <= i2 < j && #[trigger] is_for(
                                    events@[i2],
                                    ev.client_id,
                                    ev.timer_id,
                                ) && events@[i2].recurring is Some;
                            assert(!is_for(
                                events@[j as int],
                                events@[w].client_id,
                                events@[w].timer_id,
                            ));
                        }
                    }
                }
                let ghost kept_pre = kept@;
                let new_ev = Event {
                    deadline: nd,
                    client_id: ev.client_id,
                    timer_id: ev.timer_id,
                    recurring: Some(p),
                };
                let pos = insert_event(&mut kept, new_ev);
                proof {
                    lemma_insert_event(kept_pre, new_ev, pos as int);
                    assert(kept@ == kept_pre.insert(pos as int, new_ev));
                    assert forall|i2: int|
                        k <= i2 < n implies #[trigger] has_timer(
                        kept@,
                        events@[i2].client_id,
                        events@[i2].timer_id,
                    ) && timer_deadline(kept@, events@[i2].client_id, events@[i2].timer_id)
                        == events@[i2].deadline && timer_recurring(
                        kept@,
                        events@[i2].client_id,
                        events@[i2].timer_id,
                    ) == events@[i2].recurring by {
                        let c2 = events@[i2].client_id;
                        let t2 = events@[i2].timer_id;
                        assert(has_timer(kept_pre, c2, t2));
                        assert(timer_deadline(kept_pre.insert(pos as int, new_ev), c2, t2)
                            == timer_deadline(kept_pre, c2, t2));
                        assert(has_timer(kept_pre.insert(pos as int, new_ev), c2, t2));
                    }
                    assert forall|i2: int|
                        0 <= i2 < j + 1 && (#[trigger] events@[i2]).recurring is Some
                            implies has_timer(
                        kept@,
                        events@[i2].client_id,
                        events@[i2].timer_id,
                    ) && timer_deadline(kept@, events@[i2].client_id, events@[i2].timer_id)
                        == ticks_after(now, events@[i2].recurring->0) && timer_recurring(
                        kept@,
                        events@[i2].client_id,
                        events@[i2].timer_id,
                    ) == events@[i2].recurring by {
                        let c2 = events@[i2].client_id;
                        let t2 = events@[i2].timer_id;
                        if i2 == j {
                            assert(is_for(new_ev, c2, t2));
                            assert(timer_deadline(kept_pre.insert(pos as int, new_ev), c2, t2)
                                == new_ev.deadline);
                        } else {
                            assert(has_timer(kept_pre, c2, t2));
                            assert(!is_for(
                                events@[j as int],
                                events@[i2].client_id,
                                events@[i2].timer_id,
                            ));
                            assert(timer_deadline(kept_pre.insert(pos as int, new_ev), c2, t2)
                                == timer_deadline(kept_pre, c2, t2));
                            assert(has_timer(kept_pre.insert(pos as int, new_ev), c2, t2));
                        }
                    }
                    assert forall|c: usize, t: TimerId|
                        #[trigger] has_timer(kept@, c, t) implies (exists|i2: int|
                        k <= i2 < n && #[trigger] is_for(events@[i2], c, t)) || (exists|i2: int|
                        0 <= i2 < j + 1 && #[trigger] is_for(events@[i2], c, t)
                            && events@[i2].recurring is Some) by {
                        if has_timer(kept_pre, c, t) {
                            if exists|i2: int|
                                0 <= i2 < j && #[trigger] is_for(events@[i2], c, t)
                                    && events@[i2].recurring is Some {
                                let w = choose|i2: int|
                                    0 <= i2 < j && #[trigger] is_for(events@[i2], c, t)
                                        && events@[i2].recurring is Some;
                                assert(0 <= w < j + 1 && is_for(events@[w], c, t)
                                    && events@[w].recurring is Some);
                            }
                        } else {
                            assert(is_for(new_ev, c, t));
                            assert(is_for(events@[j as int], c, t));
                            assert(events@[j as int].recurring is Some);
                        }
                    }
                }
            },
            None => {
                proof {
                    assert forall|c: usize, t: TimerId|
                        #[trigger] has_timer(kept@, c, t) implies (exists|i2: int|
                        k <= i2 < n && #[trigger] is_for(events@[i2], c, t)) || (exists|i2: int|
                        0 <= i2 < j + 1 && #[trigger] is_for(events@[i2], c, t)
                            && events@[i2].recurring is Some) by {
                        if exists|i2: int|
                            0 <= i2 < j && #[trigger] is_for(events@[i2], c, t)
                                && events@[i2].recurring is Some {
                            let w = choose|i2: int|
                                0 <= i2 < j && #[trigger] is_for(events@[i2], c, t)
                                    && events@[i2].recurring is Some;
                            assert(0 <= w < j + 1 && is_for(events@[w], c, t)
                                && events@[w].recurring is Some);
                        }
                    }
                }
            },
        }
        j += 1;
    }
    proof {
        assert forall|i2: int|
            k <= i2 < events@.len() implies #[trigger] has_timer(
            kept@,
            events@[i2].client_id,
            events@[i2].timer_id,
        ) && timer_deadline(kept@, events@[i2].client_id, events@[i2].timer_id)
            == events@[i2].deadline && timer_recurring(
            kept@,
            events@[i2].client_id,
            events@[i2].timer_id,
        ) == events@[i2].recurring by {
            assert(k <= i2 < n);
        }
    }
    (kept, fired)
}

/// The head of the deadline-ordered event list carries the soonest
/// pending deadline, so an alarm armed on the head never undershoots a
/// pending timer.
pub proof fn lemma_head_is_min_deadline(s: Seq<Event>)
    requires
        events_sorted(s),
        s.len() > 0,
    ensures
        forall|i: int| 0 <= i < s.len() ==> s[0].deadline <= (#[trigger] s[i]).deadline,
{
}

/// Idempotent completion read: one poll hands back the mask and clears
/// it, so a second poll of the same client with no firing in between
/// reads zero.
pub proof fn lemma_completed_read_idempotent(state: Seq<u32>, client_id: usize)
    requires
        1 <= client_id <= state.len(),
    ensures
        state.update(client_id - 1, 0u32)[client_id - 1] == 0,
{
}

/// How one interrupt reshapes the pending events and completion masks,
/// pair by pair: timers not yet due keep their deadline, due one-shot
/// timers are retired, due periodic timers sit one period after `now`,
/// never-pending timers stay absent, and a completion bit is up exactly
/// when it was up before or its timer just fired.
pub open spec fn interrupt_transition(
    oevs: Seq<Event>,
    nevs: Seq<Event>,
    ostate: Seq<u32>,
    nstate: Seq<u32>,
    now: Ticks,
) -> bool {
    &&& forall|c: usize, t: TimerId|
        !has_timer(oevs, c, t) ==> !(#[trigger] has_timer(nevs, c, t))
    &&& forall|c: usize, t: TimerId|
        has_timer(oevs, c, t) && timer_deadline(oevs, c, t) > now ==> #[trigger] has_timer(
            nevs,
            c,
            t,
        ) && timer_deadline(nevs, c, t) == timer_deadline(oevs, c, t) && timer_recurring(
            nevs,
            c,
            t,
        ) == timer_recurring(oevs, c, t)
    &&& forall|c: usize, t: TimerId|
        has_timer(oevs, c, t) && timer_deadline(oevs, c, t) <= now && timer_recurring(
            oevs,
            c,
            t,
        ) is None ==> !(#[trigger] has_timer(nevs, c, t))
    &&& forall|c: usize, t: TimerId|
        has_timer(oevs, c, t) && timer_deadline(oevs, c, t) <= now && timer_recurring(
            oevs,
            c,
            t,
        ) is Some ==> #[trigger] has_timer(nevs, c, t) && timer_deadline(nevs, c, t)
            == ticks_after(now, timer_recurring(oevs, c, t)->0) && timer_recurring(nevs, c, t)
            == timer_recurring(oevs, c, t)
    &&& forall|c: usize, t: TimerId|
        1 <= c <= NUM_CLIENTS && t < TIMERS_PER_CLIENT ==> (#[trigger] bit_set(
            nstate[c - 1],
            t,
        ) <==> (bit_set(ostate[c - 1], t) || (has_timer(oevs, c, t) && timer_deadline(
            oevs,
            c,
            t,
        ) <= now)))
}

/// The notification list an interrupt hands back: one client id per due
/// event, in deadline order, and nothing else.
pub open spec fn notifications_ok(oevs: Seq<Event>, now: Ticks, fired: Seq<usize>) -> bool {
    &&& fired.len() <= oevs.len()
    &&& forall|i2: int|
        0 <= i2 < fired.len() ==> (#[trigger] oevs[i2]).deadline <= now && fired[i2]
            == oevs[i2].client_id
    &&& forall|i2: int| fired.len() <= i2 < oevs.len() ==> (#[trigger] oevs[i2]).deadline > now
}

/// From the drained state of the interrupt path, the per-pair and
/// per-bit shape of the result: not-yet-due timers are untouched, due
/// one-shot timers are retired, due periodic timers sit one period after
/// now, and a completion bit is up exactly when it was up before or its
/// timer just fired.
proof fn lemma_drain_post(
    oevs: Seq<Event>,
    nevs: Seq<Event>,
    ostate: Seq<u32>,
    nstate: Seq<u32>,
    now: Ticks,
    k: int,
)
    requires
        events_sorted(oevs),
        pairs_unique(oevs),
        ids_valid(oevs),
        0 <= k <= oevs.len(),
        forall|i2: int| 0 <= i2 < k ==> (#[trigger] oevs[i2]).deadline <= now,
        forall|i2: int| k <= i2 < oevs.len() ==> (#[trigger] oevs[i2]).deadline > now,
        pairs_unique(nevs),
        forall|i2: int|
            k <= i2 < oevs.len() ==> #[trigger] has_timer(
                nevs,
                oevs[i2].client_id,
                oevs[i2].timer_id,
            ) && timer_deadline(nevs, oevs[i2].client_id, oevs[i2].timer_id) == oevs[i2].deadline
                && timer_recurring(nevs, oevs[i2].client_id, oevs[i2].timer_id)
                == oevs[i2].recurring,
        forall|i2: int|
            0 <= i2 < k && (#[trigger] oevs[i2]).recurring is Some ==> has_timer(
                nevs,
                oevs[i2].client_id,
                oevs[i2].timer_id,
            ) && timer_deadline(nevs, oevs[i2].client_id, oevs[i2].timer_id) == ticks_after(
                now,
                oevs[i2].recurring->0,
            ) && timer_recurring(nevs, oevs[i2].client_id, oevs[i2].timer_id)
                == oevs[i2].recurring,
        forall|c: usize, t: TimerId|
            #[trigger] has_timer(nevs, c, t) ==> (exists|i2: int|
                k <= i2 < oevs.len() && #[trigger] is_for(oevs[i2], c, t)) || (exists|i2: int|
                0 <= i2 < k && #[trigger] is_for(oevs[i2], c, t) && oevs[i2].recurring is Some),
        forall|c: usize, t: TimerId|
            1 <= c <= NUM_CLIENTS && t < TIMERS_PER_CLIENT ==> (#[trigger] bit_set(
                nstate[c - 1],
                t,
            ) <==> (bit_set(ostate[c - 1], t) || (exists|i2: int|
                0 <= i2 < k && #[trigger] is_for(oevs[i2], c, t)))),
    ensures
        interrupt_transition(oevs, nevs, ostate, nstate, now),
{
    assert forall|c: usize, t: TimerId|
        !has_timer(oevs, c, t) implies !(#[trigger] has_timer(nevs, c, t)) by {
        if has_timer(nevs, c, t) {
            if exists|i2: int| k <= i2 < oevs.len() && #[trigger] is_for(oevs[i2], c, t) {
                let w = choose|i2: int| k <= i2 < oevs.len() && #[trigger] is_for(oevs[i2], c, t);
                assert(has_timer(oevs, c, t));
            } else {
                let w = choose|i2: int|
                    0 <= i2 < k && #[trigger] is_for(oevs[i2], c, t) && oevs[i2].recurring is Some;
                assert(has_timer(oevs, c, t));
            }
        }
    }
    assert forall|c: usize, t: TimerId|
        has_timer(oevs, c, t) && timer_deadline(oevs, c, t) > now implies #[trigger] has_timer(
        nevs,
        c,
        t,
    ) && timer_deadline(nevs, c, t) == timer_deadline(oevs, c, t) && timer_recurring(nevs, c, t)
        == timer_recurring(oevs, c, t) by {
        let w = choose|w: int| 0 <= w < oevs.len() && is_for(#[trigger] oevs[w], c, t);
        lemma_timer_lookup(oevs, c, t, w);
        assert(w >= k);
    }
    assert forall|c: usize, t: TimerId|
        has_timer(oevs, c, t) && timer_deadline(oevs, c, t) <= now && timer_recurring(
        oevs,
        c,
        t,
    ) is None implies !(#[trigger] has_timer(nevs, c, t)) by {
        let w = choose|w: int| 0 <= w < oevs.len() && is_for(#[trigger] oevs[w], c, t);
        lemma_timer_lookup(oevs, c, t, w);
        assert(w < k);
        if has_timer(nevs, c, t) {
            if exists|i2: int| k <= i2 < oevs.len() && #[trigger] is_for(oevs[i2], c, t) {
                let w2 = choose|i2: int| k <= i2 < oevs.len() && #[trigger] is_for(oevs[i2], c, t);
                assert(!is_for(oevs[w2], oevs[w].client_id, oevs[w].timer_id));
            } else {
                let w2 = choose|i2: int|
                    0 <= i2 < k && #[trigger] is_for(oevs[i2], c, t) && oevs[i2].recurring is Some;
                lemma_timer_lookup(oevs, c, t, w2);
            }
        }
    }
    assert forall|c: usize, t: TimerId|
        has_timer(oevs, c, t) && timer_deadline(oevs, c, t) <= now && timer_recurring(
        oevs,
        c,
        t,
    ) is Some implies #[trigger] has_timer(nevs, c, t) && timer_deadline(nevs, c, t)
        == ticks_after(now, timer_recurring(oevs, c, t)->0) && timer_recurring(nevs, c, t)
        == timer_recurring(oevs, c, t) by {
        let w = choose|w: int| 0 <= w < oevs.len() && is_for(#[trigger] oevs[w], c, t);
        lemma_timer_lookup(oevs, c, t, w);
        assert(w < k);
        assert(oevs[w].recurring is Some);
    }
    assert forall|c: usize, t: TimerId|
        1 <= c <= NUM_CLIENTS && t < TIMERS_PER_CLIENT implies (#[trigger] bit_set(
        nstate[c - 1],
        t,
    ) <==> (bit_set(ostate[c - 1], t) || (has_timer(oevs, c, t) && timer_deadline(oevs, c, t)
        <= now))) by {
        if exists|i2: int| 0 <= i2 < k && #[trigger] is_for(oevs[i2], c, t) {
            let w = choose|i2: int| 0 <= i2 < k && #[trigger] is_for(oevs[i2], c, t);
            lemma_timer_lookup(oevs, c, t, w);
        }
        if has_timer(oevs, c, t) && timer_deadline(oevs, c, t) <= now {
            let w = choose|w: int| 0 <= w < oevs.len() && is_for(#[trigger] oevs[w], c, t);
            lemma_timer_lookup(oevs, c, t, w);
            assert(w < k);
            assert(0 <= w < k && is_for(oevs[w], c, t));
        }
    }
}

/// Sortedness, uniqueness, id validity and per-pair lookups restricted to
/// a suffix of a well-formed event list.
proof fn lemma_subrange_wf(s: Seq<Event>, from: int, to: int)
    requires
        events_sorted(s),
        pairs_unique(s),
        ids_valid(s),
        0 <= from <= to <= s.len(),
    ensures
        events_sorted(s.subrange(from, to)),
        pairs_unique(s.subrange(from, to)),
        ids_valid(s.subrange(from, to)),
        forall|i2: int|
            from <= i2 < to ==> #[trigger] has_timer(
                s.subrange(from, to),
                s[i2].client_id,
                s[i2].timer_id,
            ) && timer_deadline(s.subrange(from, to), s[i2].client_id, s[i2].timer_id)
                == s[i2].deadline && timer_recurring(
                s.subrange(from, to),
                s[i2].client_id,
                s[i2].timer_id,
            ) == s[i2].recurring,
        forall|c: usize, t: TimerId|
            #[trigger] has_timer(s.subrange(from, to), c, t) ==> exists|i2: int|
                from <= i2 < to && #[trigger] is_for(s[i2], c, t),
{
    let sub = s.subrange(from, to);
    assert forall|i2: int|
        from <= i2 < to implies #[trigger] has_timer(sub, s[i2].client_id, s[i2].timer_id)
        && timer_deadline(sub, s[i2].client_id, s[i2].timer_id) == s[i2].deadline
        && timer_recurring(sub, s[i2].client_id, s[i2].timer_id) == s[i2].recurring by {
        assert(sub[i2 - from] == s[i2]);
        assert(is_for(sub[i2 - from], s[i2].client_id, s[i2].timer_id));
        lemma_timer_lookup(sub, s[i2].client_id, s[i2].timer_id, i2 - from);
    }
    assert forall|c: usize, t: TimerId|
        #[trigger] has_timer(sub, c, t) implies exists|i2: int|
        from <= i2 < to && #[trigger] is_for(s[i2], c, t) by {
        let w = choose|w: int| 0 <= w < sub.len() && is_for(#[trigger] sub[w], c, t);
        assert(is_for(s[w + from], c, t));
    }
}

} // verus!
