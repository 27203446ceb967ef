use vstd::prelude::*;

verus! {

/// The receiving side of an event channel: the events delivered so far, each
/// with a flag telling whether it has been read.
pub struct EventReader<T> {
    events: Vec<T>,
    read_flags: Vec<bool>,
}

/// The sending side of an event channel: the events written since the last
/// delivery.
pub struct EventWriter<T> {
    events: Vec<T>,
}

impl<T> EventReader<T> {
    #[verifier::type_invariant]
    spec fn flags_match(self) -> bool {
        self.events@.len() == self.read_flags@.len()
    }
}

impl<T> View for EventReader<T> {
    type V = Seq<(T, bool)>;

    closed spec fn view(&self) -> Seq<(T, bool)> {
        Seq::new(self.events@.len(), |i: int| (self.events@[i], self.read_flags@[i]))
    }
}

impl<T> View for EventWriter<T> {
    type V = Seq<T>;

    closed spec fn view(&self) -> Seq<T> {
        self.events@
    }
}

/// The events that have not been read, in order.
pub open spec fn unread<T>(s: Seq<(T, bool)>) -> Seq<(T, bool)> {
    s.filter(|p: (T, bool)| !p.1)
}

/// The events as newly delivered, unread events.
pub open spec fn delivered<T>(s: Seq<T>) -> Seq<(T, bool)> {
    s.map_values(|e: T| (e, false))
}

/// All events marked read.
pub open spec fn all_read<T>(s: Seq<(T, bool)>) -> Seq<(T, bool)> {
    s.map_values(|p: (T, bool)| (p.0, true))
}

/// The events with the first `k` of them marked read.
pub open spec fn mark_read<T>(s: Seq<(T, bool)>, k: int) -> Seq<(T, bool)> {
    Seq::new(s.len(), |i: int| if i < k { (s[i].0, true) } else { s[i] })
}

/// Events handed out by a read are gone after the next delivery: once the
/// first `k` events were read, the next delivery keeps only the unread ones
/// among the rest, then the newly written ones.
pub proof fn law_read_events_are_dropped<T>(r: Seq<(T, bool)>, w: Seq<T>, k: int)
    requires
        0 <= k <= r.len(),
    ensures
        unread(mark_read(r, k)) + delivered(w) == unread(r.skip(k)) + delivered(w),
{
    assert(mark_read(r, k) =~= all_read(r.take(k)) + r.skip(k));
    Seq::filter_distributes_over_add(all_read(r.take(k)), r.skip(k), |p: (T, bool)| !p.1);
    lemma_unread_all_read(r.take(k));
    assert(unread(mark_read(r, k)) =~= unread(r.skip(k)));
}

proof fn lemma_unread_all_read<T>(r: Seq<(T, bool)>)
    ensures
        unread(all_read(r)) == Seq::<(T, bool)>::empty(),
    decreases r.len(),
{
    reveal_with_fuel(Seq::filter, 1);
    if r.len() > 0 {
        lemma_unread_all_read(r.drop_last());
        assert(all_read(r).drop_last() =~= all_read(r.drop_last()));
    } else {
        assert(all_read(r) =~= Seq::<(T, bool)>::empty());
    }
}

/// An event that has not been read is still there, unread, after the next
/// delivery.
pub proof fn law_unread_events_survive<T>(r: Seq<(T, bool)>, w: Seq<T>, i: int)
    requires
        0 <= i < r.len(),
        !r[i].1,
    ensures
        (unread(r) + delivered(w)).contains(r[i]),
{
    lemma_unread_keeps(r, i);
    let j = choose|j: int| 0 <= j < unread(r).len() && unread(r)[j] == r[i];
    assert((unread(r) + delivered(w))[j] == r[i]);
}

proof fn lemma_unread_keeps<T>(r: Seq<(T, bool)>, i: int)
    requires
        0 <= i < r.len(),
        !r[i].1,
    ensures
        unread(r).contains(r[i]),
    decreases r.len(),
{
    reveal_with_fuel(Seq::filter, 1);
    if i < r.len() - 1 {
        lemma_unread_keeps(r.drop_last(), i);
        let j = choose|j: int| 0 <= j < unread(r.drop_last()).len() && unread(r.drop_last())[j] == r[i];
        if !r.last().1 {
            assert(unread(r)[j] == r[i]);
        } else {
            assert(unread(r)[j] == r[i]);
        }
    } else {
        assert(unread(r)[unread(r).len() - 1] == r[i]);
    }
}

/// A written event is delivered, unread, after everything delivered before it.
pub proof fn law_written_event_is_delivered_last<T>(r: Seq<(T, bool)>, w: Seq<T>, event: T)
    ensures
        (unread(r) + delivered(w.push(event))).last() == (event, false),
{
}

/// One call on an event channel, as its effect on the reader: a read that
/// hands out up to `max` events, or a delivery of the events written.
pub enum EventCall<T> {
    Read(nat),
    Deliver(Seq<T>),
}

/// The reader's events after `call`.
pub open spec fn after_call<T>(r: Seq<(T, bool)>, call: EventCall<T>) -> Seq<(T, bool)> {
    match call {
        EventCall::Read(max) => mark_read(r, if max < r.len() { max as int } else { r.len() as int }),
        EventCall::Deliver(w) => unread(r) + delivered(w),
    }
}

/// The reader's events after the calls, in order.
pub open spec fn after_calls<T>(r: Seq<(T, bool)>, calls: Seq<EventCall<T>>) -> Seq<(T, bool)>
    decreases calls.len(),
{
    if calls.len() == 0 {
        r
    } else {
        after_call(after_calls(r, calls.drop_last()), calls.last())
    }
}

/// Where the event at position `i` of `r` stands after the calls: reads
/// leave it in place, a delivery moves an unread event forward past the read
/// ones dropped before it and drops it once read (`None`).
pub open spec fn position_after<T>(r: Seq<(T, bool)>, calls: Seq<EventCall<T>>, i: int) -> Option<int>
    decreases calls.len(),
{
    if calls.len() == 0 {
        Some(i)
    } else {
        let cur = after_calls(r, calls.drop_last());
        match position_after(r, calls.drop_last(), i) {
            None => None,
            Some(p) => match calls.last() {
                EventCall::Read(_) => Some(p),
                EventCall::Deliver(_) => if cur[p].1 {
                    None
                } else {
                    Some(unread(cur.take(p)).len() as int)
                },
            },
        }
    }
}

/// Whether no read among the calls hands out the event that started at
/// position `i`.
pub open spec fn never_handed_out<T>(r: Seq<(T, bool)>, calls: Seq<EventCall<T>>, i: int) -> bool {
    forall|j: int|
        0 <= j < calls.len() ==> match #[trigger] calls[j] {
            EventCall::Read(max) => match position_after(r, calls.take(j), i) {
                Some(p) => max <= p,
                None => true,
            },
            EventCall::Deliver(_) => true,
        }
}

/// An unread event keeps its place among the unread ones of a delivery.
proof fn lemma_unread_position<T>(s: Seq<(T, bool)>, p: int)
    requires
        0 <= p < s.len(),
        !s[p].1,
    ensures
        unread(s.take(p)).len() < unread(s).len(),
        unread(s)[unread(s.take(p)).len() as int] == s[p],
{
    let pred = |x: (T, bool)| !x.1;
    assert(s.take(p + 1) =~= s.take(p).push(s[p]));
    s.take(p).lemma_filter_push(s[p], pred);
    assert(s =~= s.take(p + 1) + s.skip(p + 1));
    Seq::filter_distributes_over_add(s.take(p + 1), s.skip(p + 1), pred);
    let q = unread(s.take(p)).len() as int;
    assert(unread(s.take(p + 1)) == unread(s.take(p)).push(s[p]));
    assert(unread(s) == unread(s.take(p + 1)) + unread(s.skip(p + 1)));
    assert(unread(s)[q] == unread(s.take(p + 1))[q]);
}

/// An event stays, unread, through any reads and deliveries until a read
/// hands it out: while no read reaches it, it is still in the reader,
/// unread, where `position_after` says.
pub proof fn law_event_stays_until_handed_out<T>(r: Seq<(T, bool)>, calls: Seq<EventCall<T>>, i: int)
    requires
        0 <= i < r.len(),
        !r[i].1,
        never_handed_out(r, calls, i),
    ensures
        position_after(r, calls, i) matches Some(p) && 0 <= p < after_calls(r, calls).len()
            && after_calls(r, calls)[p] == r[i],
    decreases calls.len(),
{
    if calls.len() > 0 {
        let init = calls.drop_last();
        assert forall|j: int| 0 <= j < init.len() implies match #[trigger] init[j] {
            EventCall::Read(max) => match position_after(r, init.take(j), i) {
                Some(p) => max <= p,
                None => true,
            },
            EventCall::Deliver(_) => true,
        } by {
            assert(init[j] == calls[j]);
            assert(init.take(j) =~= calls.take(j));
        }
        law_event_stays_until_handed_out(r, init, i);
        let cur = after_calls(r, init);
        let p = position_after(r, init, i)->Some_0;
        assert(calls.take(calls.len() - 1) =~= init);
        match calls.last() {
            EventCall::Read(max) => {
                assert(calls[calls.len() - 1] == calls.last());
                assert(max <= p);
            },
            EventCall::Deliver(w) => {
                lemma_unread_position(cur, p);
            },
        }
    }
}

/// A read that reaches an event marks it read, and the next delivery
/// drops it.
pub proof fn law_handed_out_event_is_dropped_at_delivery<T>(
    r: Seq<(T, bool)>,
    p: int,
    max: nat,
    w: Seq<T>,
)
    requires
        0 <= p < r.len(),
        p < max,
    ensures
        after_call(r, EventCall::Read(max))[p] == (r[p].0, true),
        position_after(r, seq![EventCall::Read(max), EventCall::Deliver(w)], p) is None,
{
    let calls = seq![EventCall::Read(max), EventCall::Deliver(w)];
    assert(calls.drop_last() =~= seq![EventCall::<T>::Read(max)]);
    let one = seq![EventCall::<T>::Read(max)];
    assert(one.drop_last() =~= Seq::<EventCall<T>>::empty());
    assert(after_calls(r, one.drop_last()) == r);
    assert(position_after(r, one.drop_last(), p) == Some(p));
    assert(one.last() == EventCall::<T>::Read(max));
    assert(position_after(r, one, p) == Some(p));
    assert(after_calls(r, one) == after_call(r, EventCall::Read(max)));
    assert(after_calls(r, one)[p].1);
}

impl<T> EventReader<T> {
    /// A reader with no events.
    pub fn new() -> (r: EventReader<T>)
        ensures
            r@ == Seq::<(T, bool)>::empty(),
    {
        let r = EventReader { events: Vec::new(), read_flags: Vec::new() };
        assert(r@ =~= Seq::<(T, bool)>::empty());
        r
    }

    /// The delivered events, oldest first and whether read or not, up to
    /// `max` of them. Those handed out are marked read; the others keep
    /// their flags.
    pub fn read(&mut self, max: usize) -> (r: Vec<&T>)
        ensures
            r@.len() == (if max < old(self)@.len() { max as int } else { old(self)@.len() as int }),
            forall|i: int| 0 <= i < r@.len() ==> *r@[i] == old(self)@[i].0,
            final(self)@ == mark_read(old(self)@, r@.len() as int),
            final(self)@ == after_call(old(self)@, EventCall::Read(max as nat)),
    {
        let ghost before = self@;
        let mut taken: EventReader<T> = EventReader::new();
        std::mem::swap(&mut taken, self);
        proof {
            use_type_invariant(&taken);
        }
        let EventReader { events, mut read_flags } = taken;
        let n = if max < read_flags.len() {
            max
        } else {
            read_flags.len()
        };
        for i in 0..n
            invariant
                n <= read_flags@.len(),
                events@.len() == read_flags@.len(),
                before.len() == read_flags@.len(),
                forall|j: int| 0 <= j < before.len() ==> before[j].0 == events@[j],
                forall|j: int| 0 <= j < i ==> read_flags@[j],
                forall|j: int| i <= j < before.len() ==> read_flags@[j] == before[j].1,
        {
            read_flags.set(i, true);
        }
        *self = EventReader { events, read_flags };
        assert(self@ =~= mark_read(before, n as int));
        let mut out: Vec<&T> = Vec::new();
        for i in 0..n
            invariant
                n <= self.events@.len(),
                out@.len() == i,
                forall|j: int| 0 <= j < i ==> *out@[j] == self.events@[j],
        {
            out.push(&self.events[i]);
        }
        out
    }
}

impl<T> EventWriter<T> {
    /// A writer with no events.
    pub fn new() -> (w: EventWriter<T>)
        ensures
            w@ == Seq::<T>::empty(),
    {
        EventWriter { events: Vec::new() }
    }

    /// Queues `event` for delivery at the next update.
    pub fn write(&mut self, event: T)
        ensures
            final(self)@ == old(self)@.push(event),
    {
        self.events.push(event);
    }
}

/// The per-update delivery: read events are dropped from the reader, and the
/// written events are appended to it, unread and in order, leaving the
/// writer empty.
pub fn update_event_resources<T>(reader: &mut EventReader<T>, writer: &mut EventWriter<T>)
    ensures
        final(reader)@ == unread(old(reader)@) + delivered(old(writer)@),
        final(reader)@ == after_call(old(reader)@, EventCall::Deliver(old(writer)@)),
        final(writer)@ == Seq::<T>::empty(),
{
    let mut taken: EventReader<T> = EventReader::new();
    std::mem::swap(&mut taken, reader);
    let ghost r0 = taken@;
    proof {
        use_type_invariant(&taken);
    }
    let EventReader { events: mut old_events, read_flags: mut old_flags } = taken;
    let mut events: Vec<T> = Vec::new();
    let mut read_flags: Vec<bool> = Vec::new();
    let ghost mut k: int = 0;
    while old_events.len() > 0
        invariant
            0 <= k <= r0.len(),
            old_events@.len() == old_flags@.len(),
            old_events@.len() == r0.len() - k,
            forall|j: int|
                0 <= j < old_events@.len() ==> (old_events@[j], old_flags@[j]) == r0[k + j],
            events@.len() == read_flags@.len(),
            Seq::new(events@.len(), |i: int| (events@[i], read_flags@[i])) == unread(r0.take(k)),
        decreases old_events.len(),
    {
        let e = old_events.remove(0);
        let f = old_flags.remove(0);
        let ghost before = Seq::new(events@.len(), |i: int| (events@[i], read_flags@[i]));
        proof {
            assert((e, f) == r0[k]);
            assert(r0.take(k + 1).drop_last() =~= r0.take(k));
            assert(r0.take(k + 1).last() == r0[k]);
            reveal_with_fuel(Seq::filter, 1);
        }
        if !f {
            events.push(e);
            read_flags.push(false);
            assert(Seq::new(events@.len(), |i: int| (events@[i], read_flags@[i])) =~= before.push(
                (e, f),
            ));
        }
        proof {
            k = k + 1;
            assert forall|j: int| 0 <= j < old_events@.len() implies (
            old_events@[j],
            old_flags@[j],
            ) == r0[k + j] by {
                assert((old_events@[j], old_flags@[j]) == r0[k - 1 + j + 1]);
            }
        }
    }
    assert(r0.take(k) =~= r0);
    let ghost kept = Seq::new(events@.len(), |i: int| (events@[i], read_flags@[i]));
    let ghost w0 = writer@;
    let mut written: Vec<T> = Vec::new();
    std::mem::swap(&mut written, &mut writer.events);
    let ghost mut d: int = 0;
    while written.len() > 0
        invariant
            0 <= d <= w0.len(),
            written@ == w0.skip(d),
            events@.len() == read_flags@.len(),
            Seq::new(events@.len(), |i: int| (events@[i], read_flags@[i])) == kept + delivered(
                w0.take(d),
            ),
        decreases written.len(),
    {
        let ghost before = Seq::new(events@.len(), |i: int| (events@[i], read_flags@[i]));
        let e = written.remove(0);
        events.push(e);
        read_flags.push(false);
        proof {
            assert(e == w0[d]);
            assert(delivered(w0.take(d + 1)) =~= delivered(w0.take(d)).push((e, false)));
            assert(Seq::new(events@.len(), |i: int| (events@[i], read_flags@[i])) =~= before.push(
                (e, false),
            ));
            d = d + 1;
            assert(written@ =~= w0.skip(d));
        }
    }
    assert(w0.take(d) =~= w0);
    *reader = EventReader { events, read_flags };
    assert(writer@ =~= Seq::<T>::empty());
}

} // verus!
