//! A versioned event log with independent listeners. Each listener is an id
//! equal to the logical time at which it was issued; consuming it returns
//! exactly the events recorded after that time, in order, and compacts the
//! log down to what the remaining listeners can still read.

use vstd::prelude::*;
use crate::seq_util::{count_of, lemma_count_remove, lemma_count_zero_iff_absent, lemma_seq_min, seq_min};

verus! {

pub type Listener = u64;

/// An event payload that several listeners may each receive a copy of:
/// duplicating a value yields one with the same view.
pub trait Event: View + Sized {
    fn duplicate(&self) -> (r: Self)
        ensures
            r@ == self@,
    ;
}

/// Plain bytes can be logged directly (used by small clients and tests).
impl Event for u8 {
    fn duplicate(&self) -> (r: u8) {
        *self
    }
}

/// Mathematical snapshot of a `ChangeBuffer`: the logical clock, the
/// outstanding listener ids, and the retained `(time, event)` log.
#[verifier::ext_equal]
pub struct BufferSnapshot<V> {
    pub time: u64,
    pub listeners: Seq<u64>,
    pub events: Seq<(u64, V)>,
}

/// Payload views of the events recorded strictly after `bound`, in order.
pub open spec fn events_after<V>(events: Seq<(u64, V)>, bound: u64) -> Seq<V>
    decreases events.len(),
{
    if events.len() == 0 {
        Seq::empty()
    } else {
        let rest = events_after(events.drop_last(), bound);
        if events.last().0 > bound {
            rest.push(events.last().1)
        } else {
            rest
        }
    }
}

/// Index of the first event recorded strictly after `bound` (the log length
/// if there is none). On a time-sorted log, everything from here on is
/// newer than `bound`.
pub open spec fn cut_index<V>(events: Seq<(u64, V)>, bound: u64) -> int
    decreases events.len(),
{
    if events.len() == 0 {
        0
    } else if events[0].0 > bound {
        0
    } else {
        1 + cut_index(events.drop_first(), bound)
    }
}

pub proof fn lemma_cut_index_bounds<V>(events: Seq<(u64, V)>, bound: u64)
    ensures
        0 <= cut_index(events, bound) <= events.len(),
        forall|j: int| 0 <= j < cut_index(events, bound) ==> (#[trigger] events[j]).0 <= bound,
        cut_index(events, bound) < events.len() ==> events[cut_index(events, bound)].0 > bound,
    decreases events.len(),
{
    if events.len() == 0 {
    } else if events[0].0 > bound {
    } else {
        lemma_cut_index_bounds(events.drop_first(), bound);
        assert forall|j: int| 0 <= j < cut_index(events, bound) implies (#[trigger] events[j]).0
            <= bound by {
            if j > 0 {
                assert(events[j] == events.drop_first()[j - 1]);
            }
        }
    }
}

/// The snapshot after a listener id is issued: the current time is recorded
/// as outstanding; the clock itself only advances when events are pushed.
pub open spec fn after_get_listener<V>(s: BufferSnapshot<V>) -> BufferSnapshot<V> {
    BufferSnapshot { time: s.time, listeners: s.listeners.push(s.time), events: s.events }
}

/// The snapshot after an event is pushed: a no-op while nothing is
/// listening, otherwise the clock advances and the event is logged at the
/// new time.
pub open spec fn after_push<V>(s: BufferSnapshot<V>, v: V) -> BufferSnapshot<V> {
    if s.listeners.len() == 0 {
        s
    } else {
        BufferSnapshot {
            time: (s.time + 1) as u64,
            listeners: s.listeners,
            events: s.events.push(((s.time + 1) as u64, v)),
        }
    }
}

/// The log after compaction: with no listeners left everything resets to
/// time zero; otherwise only events newer than the oldest outstanding
/// listener are kept.
pub open spec fn compacted<V>(time: u64, listeners: Seq<u64>, events: Seq<(u64, V)>) -> BufferSnapshot<V> {
    if listeners.len() == 0 {
        BufferSnapshot { time: 0, listeners, events: Seq::empty() }
    } else {
        BufferSnapshot {
            time,
            listeners,
            events: events.subrange(cut_index(events, seq_min(listeners)), events.len() as int),
        }
    }
}

/// The payloads a consume of `id` returns.
pub open spec fn consumed_events<V>(s: BufferSnapshot<V>, id: u64) -> Seq<V> {
    events_after(s.events, id)
}

/// The snapshot after `id` is consumed: its first occurrence is retired and
/// the log is compacted.
pub open spec fn after_consume<V>(s: BufferSnapshot<V>, id: u64) -> BufferSnapshot<V> {
    compacted(s.time, s.listeners.remove_value(id), s.events)
}

/// Internal well-formedness: event times are positive, strictly increasing
/// and never ahead of the clock; listener ids never exceed the clock; an
/// unwatched buffer holds nothing and rests at time zero.
pub open spec fn buffer_inv<V>(s: BufferSnapshot<V>) -> bool {
    &&& forall|i: int, j: int|
        0 <= i < j < s.events.len() ==> (#[trigger] s.events[i]).0 < (#[trigger] s.events[j]).0
    &&& forall|i: int| 0 <= i < s.events.len() ==> 1 <= (#[trigger] s.events[i]).0 <= s.time
    &&& forall|i: int| 0 <= i < s.listeners.len() ==> (#[trigger] s.listeners[i]) <= s.time
    &&& s.listeners.len() == 0 ==> s.events.len() == 0 && s.time == 0
}

/// Consuming never starves another listener: every event of the old log
/// that is newer than some still-outstanding listener survives compaction.
pub proof fn lemma_compaction_keeps_needed_events<V>(s: BufferSnapshot<V>, id: u64, l: u64, k: int)
    requires
        buffer_inv(s),
        after_consume(s, id).listeners.contains(l),
        0 <= k < s.events.len(),
        s.events[k].0 > l,
    ensures
        after_consume(s, id).events.contains(s.events[k]),
{
    let ls = s.listeners.remove_value(id);
    let m = seq_min(ls);
    lemma_seq_min(ls);
    let c = cut_index(s.events, m);
    lemma_cut_index_bounds(s.events, m);
    assert(m <= l);
    assert(k >= c) by {
        if k < c {
            assert(s.events[k].0 <= m);
        }
    }
    let kept = after_consume(s, id).events;
    assert(kept[k - c] == s.events[k]);
}

/// A consumed listener is retired: when an id is outstanding exactly once,
/// consuming it leaves the id no longer outstanding, so a second consume
/// with the same id finds nothing.
pub proof fn lemma_consume_retires_listener<V>(s: BufferSnapshot<V>, id: u64)
    requires
        count_of(s.listeners, id) == 1,
    ensures
        !after_consume(s, id).listeners.contains(id),
{
    lemma_count_zero_iff_absent(s.listeners, id);
    assert(s.listeners.contains(id));
    s.listeners.index_of_first_ensures(id);
    let i = s.listeners.index_of_first(id).unwrap();
    lemma_count_remove(s.listeners, i, id);
    lemma_count_zero_iff_absent(s.listeners.remove(i), id);
}

/// The versioned event log.
pub struct ChangeBuffer<T: Event> {
    current_point_in_time: u64,
    listeners: Vec<Listener>,
    events: Vec<(Listener, T)>,
}

impl<T: Event> View for ChangeBuffer<T> {
    type V = BufferSnapshot<<T as View>::V>;

    closed spec fn view(&self) -> BufferSnapshot<<T as View>::V> {
        BufferSnapshot {
            time: self.current_point_in_time,
            listeners: self.listeners@,
            events: self.events@.map_values(|e: (Listener, T)| (e.0, e.1@)),
        }
    }
}

impl<T: Event> ChangeBuffer<T> {
    pub fn new() -> (r: Self)
        ensures
            r@.time == 0,
            r@.listeners == Seq::<u64>::empty(),
            r@.events == Seq::<(u64, <T as View>::V)>::empty(),
            buffer_inv(r@),
    {
        let r = ChangeBuffer { events: Vec::new(), listeners: Vec::new(), current_point_in_time: 0 };
        proof {
            assert(r@.events =~= Seq::<(u64, <T as View>::V)>::empty());
        }
        r
    }

    /// How many events the buffer currently retains.
    pub fn event_count(&self) -> (r: usize)
        ensures
            r == self@.events.len(),
    {
        self.events.len()
    }

    /// How many listeners are outstanding.
    pub fn listener_count(&self) -> (r: usize)
        ensures
            r == self@.listeners.len(),
    {
        self.listeners.len()
    }

    /// The logical clock.
    pub fn current_point_in_time(&self) -> (r: u64)
        ensures
            r == self@.time,
    {
        self.current_point_in_time
    }

    /// Issues the current point in time as a listener id and registers it as
    /// outstanding. Events pushed from now on are newer than the id, so the
    /// next consume sees exactly them. The clock only advances on pushes, so
    /// two listeners issued with no event in between share one id: each
    /// consume of that id then retires one registration and returns the
    /// events again.
    pub fn get_listener(&mut self) -> (r: Listener)
        requires
            buffer_inv(old(self)@),
        ensures
            r == old(self)@.time,
            final(self)@ == after_get_listener(old(self)@),
            buffer_inv(final(self)@),
    {
        let listener = self.current_point_in_time;
        self.listeners.push(listener);
        proof {
            assert(self@ =~= after_get_listener(old(self)@));
        }
        listener
    }

    /// Records an event at the next point in time, unless nothing is
    /// listening (then history need not be kept and the call is a no-op).
    pub fn push_event(&mut self, event: T)
        requires
            buffer_inv(old(self)@),
            old(self)@.time < u64::MAX,
        ensures
            final(self)@ == after_push(old(self)@, event@),
            buffer_inv(final(self)@),
    {
        if self.listeners.len() == 0 {
            return ;
        }
        self.current_point_in_time = self.current_point_in_time + 1;
        self.events.push((self.current_point_in_time, event));
        proof {
            assert(self@.events =~= old(self)@.events.push(
                (((old(self)@.time + 1) as u64), event@),
            ));
            assert(self@ =~= after_push(old(self)@, event@));
        }
    }

    /// Consumes a listener: fails if the id is not outstanding, otherwise
    /// retires it, returns every event recorded after the id in order (an
    /// empty vector means no changes), and compacts the log.
    pub fn consume_listener(&mut self, listener: Listener) -> (r: Option<Vec<T>>)
        requires
            buffer_inv(old(self)@),
        ensures
            r is Some <==> old(self)@.listeners.contains(listener),
            !old(self)@.listeners.contains(listener) ==> final(self)@ == old(self)@,
            old(self)@.listeners.contains(listener) ==> final(self)@ == after_consume(
                old(self)@,
                listener,
            ),
            r matches Some(evs) ==> evs@.map_values(|t: T| t@) == consumed_events(
                old(self)@,
                listener,
            ),
            buffer_inv(final(self)@),
    {
        let ghost s0 = old(self)@;
        let mut k: usize = 0;
        while k < self.listeners.len() && self.listeners[k] != listener
            invariant
                *self == *old(self),
                k <= self.listeners.len(),
                forall|j: int| 0 <= j < k ==> self.listeners@[j] != listener,
            decreases self.listeners.len() - k,
        {
            k = k + 1;
        }
        if k == self.listeners.len() {
            proof {
                assert(!s0.listeners.contains(listener));
            }
            return None;
        }
        proof {
            s0.listeners.index_of_first_ensures(listener);
            assert(s0.listeners.index_of_first(listener) == Some(k as int));
        }
        self.listeners.remove(k);
        let ghost ls1 = self.listeners@;

        let ghost evs = s0.events;
        let mut collected: Vec<T> = Vec::new();
        let mut i: usize = 0;
        proof {
            assert(collected@.map_values(|t: T| t@) =~= events_after(evs.take(0), listener));
        }
        while i < self.events.len()
            invariant
                self.listeners@ == ls1,
                self.current_point_in_time == s0.time,
                self.events@.map_values(|e: (Listener, T)| (e.0, e.1@)) == evs,
                i <= evs.len(),
                collected@.map_values(|t: T| t@) == events_after(evs.take(i as int), listener),
            decreases self.events.len() - i,
        {
            let ghost pre = evs.take(i + 1);
            proof {
                assert(pre.drop_last() =~= evs.take(i as int));
                assert(pre.last() == evs[i as int]);
            }
            if self.events[i].0 > listener {
                let copy = self.events[i].1.duplicate();
                collected.push(copy);
                proof {
                    assert(collected@.map_values(|t: T| t@) =~= events_after(
                        evs.take(i as int),
                        listener,
                    ).push(evs[i as int].1));
                }
            }
            i = i + 1;
        }
        proof {
            assert(evs.take(evs.len() as int) =~= evs);
        }

        self.cleanup();
        proof {
            assert(self@ =~= after_consume(s0, listener));
        }
        Some(collected)
    }

    /// Drops events that are not newer than the oldest outstanding listener;
    /// with no listeners left, clears everything and resets the clock.
    fn cleanup(&mut self)
        requires
            forall|i: int, j: int|
                0 <= i < j < old(self)@.events.len() ==> (#[trigger] old(self)@.events[i]).0 < (
                #[trigger] old(self)@.events[j]).0,
            forall|i: int|
                0 <= i < old(self)@.events.len() ==> 1 <= (#[trigger] old(self)@.events[i]).0 <= old(
                    self,
                )@.time,
            forall|i: int|
                0 <= i < old(self)@.listeners.len() ==> (#[trigger] old(self)@.listeners[i])
                    <= old(self)@.time,
        ensures
            final(self)@ == compacted(old(self)@.time, old(self)@.listeners, old(self)@.events),
            buffer_inv(final(self)@),
    {
        let ghost s0 = old(self)@;
        if self.listeners.len() == 0 {
            self.events.clear();
            self.current_point_in_time = 0;
            proof {
                assert(self@ =~= compacted(s0.time, s0.listeners, s0.events));
            }
            return ;
        }

        let mut oldest: u64 = self.listeners[0];
        let mut k: usize = 1;
        proof {
            assert(s0.listeners.take(1) =~= seq![s0.listeners[0]]);
            assert(seq_min(s0.listeners.take(1)) == s0.listeners[0]);
        }
        while k < self.listeners.len()
            invariant
                *self == *old(self),
                self@ == s0,
                1 <= k <= s0.listeners.len(),
                s0.listeners.len() > 0,
                oldest == seq_min(s0.listeners.take(k as int)),
            decreases self.listeners.len() - k,
        {
            proof {
                assert(s0.listeners.take(k + 1).drop_last() =~= s0.listeners.take(k as int));
                assert(s0.listeners.take(k + 1).last() == s0.listeners[k as int]);
            }
            if self.listeners[k] < oldest {
                oldest = self.listeners[k];
            }
            k = k + 1;
        }
        proof {
            assert(s0.listeners.take(s0.listeners.len() as int) =~= s0.listeners);
            assert(oldest == seq_min(s0.listeners));
            lemma_cut_index_bounds(s0.events, oldest);
        }
        let ghost cut = cut_index(s0.events, oldest);
        proof {
            assert(s0.events.len() == old(self).events.len());
        }

        let mut dropped: usize = 0;
        while self.events.len() > 0 && self.events[0].0 <= oldest
            invariant
                self.current_point_in_time == s0.time,
                self.listeners@ == s0.listeners,
                dropped <= cut,
                s0.events.len() <= usize::MAX,
                self.events@.map_values(|e: (Listener, T)| (e.0, e.1@)) == s0.events.subrange(
                    dropped as int,
                    s0.events.len() as int,
                ),
                forall|j: int| 0 <= j < dropped ==> (#[trigger] s0.events[j]).0 <= oldest,
                cut <= s0.events.len(),
                forall|j: int| 0 <= j < cut ==> (#[trigger] s0.events[j]).0 <= oldest,
                cut < s0.events.len() ==> s0.events[cut].0 > oldest,
            decreases self.events.len(),
        {
            proof {
                let rest = s0.events.subrange(dropped as int, s0.events.len() as int);
                let pv = |e: (Listener, T)| (e.0, e.1@);
                assert(self.events@.map_values(pv).len() == rest.len());
                assert(dropped < s0.events.len());
                assert(self.events@.map_values(pv)[0] == pv(self.events@[0]));
                assert(rest[0] == s0.events[dropped as int]);
                assert(s0.events[dropped as int].0 == self.events@[0].0);
                assert(s0.events[dropped as int].0 <= oldest);
                assert(dropped < cut) by {
                    if dropped > cut {
                        assert((#[trigger] s0.events[cut]).0 <= oldest);
                    }
                }
                assert(rest.remove(0) =~= s0.events.subrange(
                    dropped + 1,
                    s0.events.len() as int,
                ));
            }
            self.events.remove(0);
            dropped = dropped + 1;
        }
        proof {
            assert(dropped == cut) by {
                if dropped < cut {
                    let rest = s0.events.subrange(dropped as int, s0.events.len() as int);
                    let pv = |e: (Listener, T)| (e.0, e.1@);
                    assert(s0.events[dropped as int].0 <= oldest);
                    assert(self.events@.map_values(pv).len() == rest.len());
                    assert(self.events@.map_values(pv)[0] == pv(self.events@[0]));
                    assert(rest[0] == s0.events[dropped as int]);
                }
            }
            assert(self@ =~= compacted(s0.time, s0.listeners, s0.events));
        }
    }
}

} // verus!
