use vstd::prelude::*;

use crate::model::{points_view, DeliveryToken, PointView, TimeSeriesPoint};

verus! {

/// What a failed flush does with the results it tried to write.
#[derive(PartialEq, Eq, Structural, Clone, Copy, Debug)]
pub enum Retention {
    /// Keep them, ahead of newer results, for the next flush.
    Keep,
    /// Drop them, giving their tokens back for rejection.
    Discard,
}

/// The points of one completed probe, waiting to be written.
#[derive(Debug)]
pub struct BatchEntry {
    pub token: DeliveryToken,
    pub points: Vec<TimeSeriesPoint>,
}

pub struct EntryView {
    pub token: DeliveryToken,
    pub points: Seq<PointView>,
}

impl View for BatchEntry {
    type V = EntryView;

    open spec fn view(&self) -> EntryView {
        EntryView { token: self.token, points: points_view(self.points@) }
    }
}

pub open spec fn entries_view(v: Seq<BatchEntry>) -> Seq<EntryView> {
    v.map_values(|e: BatchEntry| e@)
}

/// The points of all entries, entry after entry.
pub open spec fn entries_points(es: Seq<EntryView>) -> Seq<PointView>
    decreases es.len(),
{
    if es.len() == 0 {
        Seq::empty()
    } else {
        entries_points(es.drop_last()) + es.last().points
    }
}

pub open spec fn entries_tokens(es: Seq<EntryView>) -> Seq<DeliveryToken> {
    es.map_values(|e: EntryView| e.token)
}

/// One write to the sink: every point of the flushed entries, and the
/// tokens that its outcome settles.
#[derive(Debug)]
pub struct Batch {
    pub tokens: Vec<DeliveryToken>,
    pub points: Vec<TimeSeriesPoint>,
}

pub struct BatchView {
    pub tokens: Seq<DeliveryToken>,
    pub points: Seq<PointView>,
}

impl View for Batch {
    type V = BatchView;

    open spec fn view(&self) -> BatchView {
        BatchView { tokens: self.tokens@, points: points_view(self.points@) }
    }
}

pub open spec fn batch_view(b: Option<Batch>) -> Option<BatchView> {
    match b {
        Some(b) => Some(b@),
        None => None,
    }
}

/// The batch that writes all of `es`.
pub open spec fn batch_of(es: Seq<EntryView>) -> BatchView {
    BatchView { tokens: entries_tokens(es), points: entries_points(es) }
}

/// `a + b`, or `i64::MAX` where that does not fit.
pub open spec fn saturating_sum(a: int, b: int) -> int {
    if a + b > i64::MAX {
        i64::MAX as int
    } else {
        a + b
    }
}

/// Collects completed results and writes them in one batch per window of
/// `interval` seconds.
pub struct BatchBuffer {
    interval: u64,
    next_flush: i64,
    retention: Retention,
    pending: Vec<BatchEntry>,
    in_flight: Vec<BatchEntry>,
    flushing: bool,
}

pub struct BufferView {
    pub interval: nat,
    pub next_flush: int,
    pub retention: Retention,
    pub pending: Seq<EntryView>,
    pub in_flight: Seq<EntryView>,
    pub flushing: bool,
}

impl View for BatchBuffer {
    type V = BufferView;

    closed spec fn view(&self) -> BufferView {
        BufferView {
            interval: self.interval as nat,
            next_flush: self.next_flush as int,
            retention: self.retention,
            pending: entries_view(self.pending@),
            in_flight: entries_view(self.in_flight@),
            flushing: self.flushing,
        }
    }
}

impl BufferView {
    pub open spec fn wf(self) -> bool {
        &&& self.interval > 0
        &&& !self.flushing ==> self.in_flight.len() == 0
    }

    pub open spec fn start(interval: nat, start: int, retention: Retention) -> BufferView {
        BufferView {
            interval,
            next_flush: start + interval,
            retention,
            pending: Seq::empty(),
            in_flight: Seq::empty(),
            flushing: false,
        }
    }

    pub open spec fn push(self, e: EntryView) -> BufferView {
        BufferView { pending: self.pending.push(e), ..self }
    }

    /// Pushes `es` one after another.
    pub open spec fn push_all(self, es: Seq<EntryView>) -> BufferView
        decreases es.len(),
    {
        if es.len() == 0 {
            self
        } else {
            self.push_all(es.drop_last()).push(es.last())
        }
    }

    /// The timer fires at `now`. Before the window ends nothing happens. Once
    /// it has ended a new window starts, and the entries collected so far
    /// leave as one batch, unless there are none or a batch is still being
    /// written.
    pub open spec fn tick(self, now: int) -> (BufferView, Option<BatchView>) {
        if now < self.next_flush {
            (self, None)
        } else {
            let next = saturating_sum(now, self.interval as int);
            if self.flushing || self.pending.len() == 0 {
                (BufferView { next_flush: next, ..self }, None)
            } else {
                (
                    BufferView {
                        next_flush: next,
                        pending: Seq::empty(),
                        in_flight: self.pending,
                        flushing: true,
                        ..self
                    },
                    Some(batch_of(self.pending)),
                )
            }
        }
    }

    /// The write of the batch in flight ended. Gives the tokens it settles:
    /// all of them when it succeeded (to acknowledge); on failure none under
    /// `Keep`, which keeps the entries for the next window, and all of them
    /// under `Discard` (to reject).
    pub open spec fn flush_done(self, ok: bool) -> (BufferView, Seq<DeliveryToken>) {
        if !self.flushing {
            (self, Seq::empty())
        } else if ok || self.retention == Retention::Discard {
            (
                BufferView { in_flight: Seq::empty(), flushing: false, ..self },
                entries_tokens(self.in_flight),
            )
        } else {
            (
                BufferView {
                    pending: self.in_flight + self.pending,
                    in_flight: Seq::empty(),
                    flushing: false,
                    ..self
                },
                Seq::empty(),
            )
        }
    }
}

/// Results that arrive within one window leave together: ticks before the
/// window's end write nothing; the first tick at or after it writes exactly
/// one batch with every point of every result and all their tokens; no other
/// batch is written while that one is in flight; and its outcome settles all
/// the tokens together, for acknowledgment exactly when the write succeeded.
pub proof fn lemma_one_batch_per_window(
    interval: nat,
    start: int,
    retention: Retention,
    es: Seq<EntryView>,
    early: int,
    late: int,
    later: int,
)
    requires
        interval > 0,
        es.len() > 0,
        early < start + interval <= late,
    ensures
        ({
            let b = BufferView::start(interval, start, retention).push_all(es);
            &&& b.tick(early).1 is None
            &&& b.tick(early).0 == b
            &&& b.tick(late).1 == Some(batch_of(es))
            &&& b.tick(late).0.tick(later).1 is None
            &&& b.tick(late).0.flush_done(true).1 == entries_tokens(es)
            &&& (retention == Retention::Keep ==> b.tick(late).0.flush_done(false).1.len() == 0)
            &&& (retention == Retention::Discard ==> b.tick(late).0.flush_done(false).1
                == entries_tokens(es))
        }),
{
    lemma_push_all(BufferView::start(interval, start, retention), es);
}

/// Pushing only adds to the pending entries.
pub proof fn lemma_push_all(b: BufferView, es: Seq<EntryView>)
    ensures
        b.push_all(es) == (BufferView { pending: b.pending + es, ..b }),
    decreases es.len(),
{
    if es.len() > 0 {
        lemma_push_all(b, es.drop_last());
        assert(b.pending + es.drop_last() + seq![es.last()] =~= b.pending + es);
        assert((b.pending + es.drop_last()).push(es.last()) =~= b.pending + es);
    } else {
        assert(b.pending + es =~= b.pending);
    }
}

/// Appends copies of `src` to `out`.
fn append_points(out: &mut Vec<TimeSeriesPoint>, src: &Vec<TimeSeriesPoint>)
    ensures
        points_view(final(out)@) == points_view(old(out)@) + points_view(src@),
{
    let ghost start = points_view(out@);
    let mut i: usize = 0;
    while i < src.len()
        invariant
            i <= src@.len(),
            points_view(out@) == start + points_view(src@).take(i as int),
        decreases src@.len() - i,
    {
        let ghost before = out@;
        out.push(src[i].clone());
        assert(points_view(out@) =~= points_view(before).push(src@[i as int]@));
        assert(points_view(src@).take(i + 1) =~= points_view(src@).take(i as int).push(
            src@[i as int]@,
        ));
        i = i + 1;
    }
    assert(points_view(src@).take(src@.len() as int) =~= points_view(src@));
}

/// The batch that writes all of `es`.
fn make_batch(es: &Vec<BatchEntry>) -> (r: Batch)
    ensures
        r@ == batch_of(entries_view(es@)),
{
    let mut tokens: Vec<DeliveryToken> = Vec::new();
    let mut points: Vec<TimeSeriesPoint> = Vec::new();
    let mut i: usize = 0;
    while i < es.len()
        invariant
            i <= es@.len(),
            tokens@ == entries_tokens(entries_view(es@).take(i as int)),
            points_view(points@) == entries_points(entries_view(es@).take(i as int)),
        decreases es@.len() - i,
    {
        let ghost prefix = entries_view(es@).take(i + 1);
        assert(prefix.drop_last() =~= entries_view(es@).take(i as int));
        assert(prefix.last() == es@[i as int]@);
        tokens.push(es[i].token);
        assert(tokens@ =~= entries_tokens(prefix));
        append_points(&mut points, &es[i].points);
        i = i + 1;
    }
    assert(entries_view(es@).take(es@.len() as int) =~= entries_view(es@));
    Batch { tokens, points }
}

fn saturating_add(a: i64, b: u64) -> (r: i64)
    ensures
        r == saturating_sum(a as int, b as int),
{
    let sum: i128 = a as i128 + b as i128;
    if sum > i64::MAX as i128 {
        i64::MAX
    } else {
        sum as i64
    }
}

impl BatchBuffer {
    /// An empty buffer whose first window starts at `start` (seconds since
    /// the Unix epoch) and lasts `interval` seconds.
    pub fn new(interval: u64, start: i64, retention: Retention) -> (r: BatchBuffer)
        requires
            interval > 0,
            start + interval <= i64::MAX,
        ensures
            r@ == BufferView::start(interval as nat, start as int, retention),
            r@.wf(),
    {
        let r = BatchBuffer {
            interval,
            next_flush: (start as i128 + interval as i128) as i64,
            retention,
            pending: Vec::new(),
            in_flight: Vec::new(),
            flushing: false,
        };
        assert(r@.pending =~= Seq::<EntryView>::empty());
        assert(r@.in_flight =~= Seq::<EntryView>::empty());
        r
    }

    /// The number of results waiting for the next flush.
    pub fn pending_len(&self) -> (r: usize)
        ensures
            r == self@.pending.len(),
    {
        self.pending.len()
    }

    /// Adds the points of one completed probe.
    pub fn push(&mut self, token: DeliveryToken, points: Vec<TimeSeriesPoint>)
        requires
            old(self)@.wf(),
        ensures
            final(self)@ == old(self)@.push(EntryView { token, points: points_view(points@) }),
            final(self)@.wf(),
    {
        let e = BatchEntry { token, points };
        self.pending.push(e);
        assert(entries_view(self.pending@) =~= entries_view(old(self).pending@).push(e@));
    }

    /// The timer fired at `now` seconds since the Unix epoch
    /// (see `BufferView::tick`).
    pub fn tick(&mut self, now: i64) -> (r: Option<Batch>)
        requires
            old(self)@.wf(),
        ensures
            (final(self)@, batch_view(r)) == old(self)@.tick(now as int),
            final(self)@.wf(),
    {
        if now < self.next_flush {
            return None;
        }
        self.next_flush = saturating_add(now, self.interval);
        if self.flushing || self.pending.len() == 0 {
            return None;
        }
        let batch = make_batch(&self.pending);
        std::mem::swap(&mut self.pending, &mut self.in_flight);
        assert(entries_view(self.pending@) =~= Seq::<EntryView>::empty());
        self.flushing = true;
        Some(batch)
    }

    /// The write of the batch in flight ended (see `BufferView::flush_done`).
    pub fn flush_done(&mut self, ok: bool) -> (r: Vec<DeliveryToken>)
        requires
            old(self)@.wf(),
        ensures
            (final(self)@, r@) == old(self)@.flush_done(ok),
            final(self)@.wf(),
    {
        if !self.flushing {
            return Vec::new();
        }
        let mut done: Vec<BatchEntry> = Vec::new();
        std::mem::swap(&mut done, &mut self.in_flight);
        self.flushing = false;
        assert(entries_view(self.in_flight@) =~= Seq::<EntryView>::empty());
        if ok || self.retention == Retention::Discard {
            let mut tokens: Vec<DeliveryToken> = Vec::new();
            let mut i: usize = 0;
            while i < done.len()
                invariant
                    i <= done@.len(),
                    tokens@ == entries_tokens(entries_view(done@)).take(i as int),
                decreases done@.len() - i,
            {
                tokens.push(done[i].token);
                assert(tokens@ =~= entries_tokens(entries_view(done@)).take(i + 1));
                i = i + 1;
            }
            assert(entries_tokens(entries_view(done@)).take(done@.len() as int)
                =~= entries_tokens(entries_view(done@)));
            tokens
        } else {
            let ghost kept = entries_view(done@) + entries_view(self.pending@);
            done.append(&mut self.pending);
            assert(entries_view(done@) =~= kept);
            self.pending = done;
            Vec::new()
        }
    }
}

} // verus!
