//! The event buffer: producers append at the tail, the flush loop drains
//! bounded batches from the head.

use vstd::prelude::*;
use crate::event::LogEvent;

verus! {

/// How a drain takes its batch out of the buffer.
#[derive(Clone, Copy, Debug, PartialEq, Eq, Structural)]
pub enum DrainShape {
    /// Nothing is pending: nothing is taken.
    Empty,
    /// The whole backlog fits into one batch: it is swapped out in one piece.
    Whole,
    /// The backlog is longer than a batch: a prefix is cut off.
    Prefix,
}

/// The shape of a drain of at most `max_count` events from `len` pending.
pub open spec fn drain_shape_of(len: nat, max_count: nat) -> DrainShape {
    if len == 0 {
        DrainShape::Empty
    } else if len <= max_count {
        DrainShape::Whole
    } else {
        DrainShape::Prefix
    }
}

/// How many events a drain of at most `max_count` takes from `len` pending.
pub open spec fn drain_count(len: nat, max_count: nat) -> nat {
    if len <= max_count {
        len
    } else {
        max_count
    }
}

/// The batch that a drain of at most `max_count` takes from `pending`.
pub open spec fn drained<E>(pending: Seq<E>, max_count: nat) -> Seq<E> {
    pending.take(drain_count(pending.len(), max_count) as int)
}

/// What a drain of at most `max_count` leaves of `pending`.
pub open spec fn retained<E>(pending: Seq<E>, max_count: nat) -> Seq<E> {
    pending.skip(drain_count(pending.len(), max_count) as int)
}

/// What is pending after `events` were appended one by one, in their order,
/// to a buffer that held `pending`.
pub open spec fn appended<E>(pending: Seq<E>, events: Seq<E>) -> Seq<E>
    decreases events.len(),
{
    if events.len() == 0 {
        pending
    } else {
        appended(pending.push(events[0]), events.drop_first())
    }
}

/// Appended events stand behind what was pending, in the order in which
/// they were appended.
pub proof fn law_appends_keep_order<E>(pending: Seq<E>, events: Seq<E>)
    ensures
        appended(pending, events) == pending + events,
    decreases events.len(),
{
    if events.len() == 0 {
        assert(pending + events =~= pending);
    } else {
        law_appends_keep_order(pending.push(events[0]), events.drop_first());
        assert(pending.push(events[0]) + events.drop_first() =~= pending + events);
    }
}

/// After no more events were appended to an empty buffer than one batch
/// holds, one drain takes exactly these events, in the order in which they
/// were appended, and leaves nothing.
pub proof fn law_small_backlog_leaves_whole<E>(events: Seq<E>, max_count: nat)
    requires
        events.len() <= max_count,
    ensures
        drained(appended(Seq::empty(), events), max_count) == events,
        retained(appended(Seq::empty(), events), max_count) == Seq::<E>::empty(),
{
    law_appends_keep_order(Seq::empty(), events);
    assert(Seq::<E>::empty() + events =~= events);
    assert(events.take(events.len() as int) =~= events);
    assert(events.skip(events.len() as int) =~= Seq::<E>::empty());
}

/// After more events were appended to an empty buffer than one batch holds,
/// one drain takes exactly the oldest `max_count` of them, in order, and
/// leaves the others, in order.
pub proof fn law_long_backlog_loses_its_oldest<E>(events: Seq<E>, max_count: nat)
    requires
        events.len() > max_count,
    ensures
        drained(appended(Seq::empty(), events), max_count) == events.take(max_count as int),
        drained(appended(Seq::empty(), events), max_count).len() == max_count,
        retained(appended(Seq::empty(), events), max_count) == events.skip(max_count as int),
        retained(appended(Seq::empty(), events), max_count).len() == events.len() - max_count,
{
    law_appends_keep_order(Seq::empty(), events);
    assert(Seq::<E>::empty() + events =~= events);
}

/// A drain loses no event and takes none twice: the batch, then what is
/// left, is what was pending.
pub proof fn law_drain_keeps_every_event<E>(pending: Seq<E>, max_count: nat)
    ensures
        drained(pending, max_count) + retained(pending, max_count) == pending,
{
    assert(drained(pending, max_count) + retained(pending, max_count) =~= pending);
}

/// No batch is longer than the cap, and one that is shorter leaves nothing
/// behind.
pub proof fn law_only_the_last_batch_is_short<E>(pending: Seq<E>, max_count: nat)
    ensures
        drained(pending, max_count).len() <= max_count,
        drained(pending, max_count).len() < max_count ==> retained(pending, max_count).len() == 0,
        drained(pending, max_count).len() == drain_count(pending.len(), max_count),
{
}

/// The batches in which a backlog leaves, drain after drain, until nothing
/// is pending and while nothing is appended.
pub open spec fn batches<E>(pending: Seq<E>, max_count: nat) -> Seq<Seq<E>>
    decreases pending.len(),
{
    if pending.len() == 0 || max_count == 0 {
        Seq::empty()
    } else {
        seq![drained(pending, max_count)] + batches(retained(pending, max_count), max_count)
    }
}

/// Whether `batch` is the batch at position `at`, where `pending` leaves in
/// batches of `max_count`: the events from position `at * max_count` up to
/// the next batch's first, or to the end.
pub open spec fn is_batch_at<E>(pending: Seq<E>, max_count: nat, at: int, batch: Seq<E>) -> bool {
    let first = at * max_count;
    let end = if first + max_count <= pending.len() {
        first + max_count
    } else {
        pending.len() as int
    };
    0 <= first < pending.len() && batch == pending.subrange(first, end)
}

/// A backlog of `n` events leaves in `n / max_count` batches, rounded up,
/// and each of them is a run of the backlog: every batch but the last is
/// full, none overlaps another, and none is empty.
pub proof fn law_backlog_leaves_in_batches<E>(pending: Seq<E>, max_count: nat)
    requires
        max_count > 0,
    ensures
        batches(pending, max_count).len() == (pending.len() + max_count - 1) / (max_count as int),
        forall|at: int|
            0 <= at < batches(pending, max_count).len() ==> is_batch_at(
                pending,
                max_count,
                at,
                #[trigger] batches(pending, max_count)[at],
            ),
    decreases pending.len(),
{
    let n = pending.len() as int;
    let m = max_count as int;
    let all = batches(pending, max_count);
    if n == 0 {
        assert((0 + m - 1) / m == 0) by (nonlinear_arith)
            requires
                m > 0,
        ;
    } else if n <= m {
        assert(batches(retained(pending, max_count), max_count) =~= Seq::<Seq<E>>::empty());
        assert(all =~= seq![drained(pending, max_count)]);
        assert((n + m - 1) / m == 1) by (nonlinear_arith)
            requires
                0 < n <= m,
        ;
        assert(0 * m == 0) by (nonlinear_arith);
        assert(all[0] =~= pending.subrange(0, n));
        assert(is_batch_at(pending, max_count, 0, all[0]));
    } else {
        let rest = retained(pending, max_count);
        let later = batches(rest, max_count);
        law_backlog_leaves_in_batches(rest, max_count);
        assert(rest.len() == n - m);
        assert((n - m + m - 1) / m + 1 == (n + m - 1) / m) by (nonlinear_arith)
            requires
                m > 0,
        ;
        assert forall|at: int| 0 <= at < all.len() implies is_batch_at(
            pending,
            max_count,
            at,
            #[trigger] all[at],
        ) by {
            if at == 0 {
                assert(0 * m == 0) by (nonlinear_arith);
                assert(all[0] =~= pending.subrange(0, m));
            } else {
                assert(all[at] == later[at - 1]);
                assert(is_batch_at(rest, max_count, at - 1, later[at - 1]));
                assert((at - 1) * m + m == at * m) by (nonlinear_arith);
                let first = at * m;
                let end = if first + m <= n {
                    first + m
                } else {
                    n
                };
                assert(later[at - 1] =~= pending.subrange(first, end));
            }
        }
    }
}

/// Decides the shape of a drain from the backlog's length and the cap.
pub fn drain_shape(len: usize, max_count: usize) -> (shape: DrainShape)
    ensures
        shape == drain_shape_of(len as nat, max_count as nat),
{
    if len == 0 {
        DrainShape::Empty
    } else if len <= max_count {
        DrainShape::Whole
    } else {
        DrainShape::Prefix
    }
}

/// The pending events, oldest first.
#[derive(Debug)]
pub struct EventBuffer {
    events: Vec<LogEvent>,
}

impl View for EventBuffer {
    type V = Seq<LogEvent>;

    closed spec fn view(&self) -> Seq<LogEvent> {
        self.events@
    }
}

impl EventBuffer {
    /// An empty buffer.
    pub fn new() -> (buffer: EventBuffer)
        ensures
            buffer@ == Seq::<LogEvent>::empty(),
    {
        EventBuffer { events: Vec::new() }
    }

    /// The number of pending events.
    pub fn len(&self) -> (len: usize)
        ensures
            len == self@.len(),
    {
        self.events.len()
    }

    /// Whether nothing is pending.
    pub fn is_empty(&self) -> (empty: bool)
        ensures
            empty == (self@.len() == 0),
    {
        self.events.len() == 0
    }

    /// Puts `event` behind everything that is pending. Never fails.
    pub fn append(&mut self, event: LogEvent)
        ensures
            final(self)@ == old(self)@.push(event),
    {
        self.events.push(event);
    }

    /// Takes up to `max_count` events from the head, in the order in which
    /// they were appended, and leaves the rest in place.
    ///
    /// Returns `None` exactly when nothing is pending. A backlog of at most
    /// `max_count` events leaves in one piece; of a longer one the oldest
    /// `max_count` leave.
    pub fn drain(&mut self, max_count: usize) -> (batch: Option<Vec<LogEvent>>)
        ensures
            batch is None <==> old(self)@.len() == 0,
            batch matches Some(events) ==> events@ == drained(old(self)@, max_count as nat),
            final(self)@ == retained(old(self)@, max_count as nat),
    {
        let len = self.events.len();
        match drain_shape(len, max_count) {
            DrainShape::Empty => {
                assert(self.events@.skip(0) =~= self.events@);
                None
            },
            DrainShape::Whole => {
                let mut result: Vec<LogEvent> = Vec::new();
                std::mem::swap(&mut result, &mut self.events);
                assert(result@.take(len as int) =~= result@);
                assert(result@.skip(len as int) =~= Seq::<LogEvent>::empty());
                Some(result)
            },
            DrainShape::Prefix => {
                let mut result = self.events.split_off(max_count);
                std::mem::swap(&mut result, &mut self.events);
                Some(result)
            },
        }
    }
}

} // verus!
