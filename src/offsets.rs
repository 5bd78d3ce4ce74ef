use vstd::prelude::*;

verus! {

/// One delivery of a partition that is not committed yet: its offset, and
/// whether it was acknowledged.
pub struct Delivery {
    pub offset: i64,
    pub acked: bool,
}

pub struct DeliveryView {
    pub offset: int,
    pub acked: bool,
}

impl View for Delivery {
    type V = DeliveryView;

    open spec fn view(&self) -> DeliveryView {
        DeliveryView { offset: self.offset as int, acked: self.acked }
    }
}

pub open spec fn deliveries_view(v: Seq<Delivery>) -> Seq<DeliveryView> {
    v.map_values(|d: Delivery| d@)
}

/// Offsets rise strictly along the deliveries, and each is a real offset
/// (non-negative, with a successor that fits in `i64`).
pub open spec fn well_ordered(s: Seq<DeliveryView>) -> bool {
    &&& forall|i: int| 0 <= i < s.len() ==> 0 <= #[trigger] s[i].offset < i64::MAX
    &&& forall|i: int, j: int| 0 <= i < j < s.len() ==> s[i].offset < s[j].offset
}

/// How many leading deliveries have an offset below `o`.
pub open spec fn count_below(s: Seq<DeliveryView>, o: int) -> nat
    decreases s.len(),
{
    if s.len() == 0 || s[0].offset >= o {
        0
    } else {
        1 + count_below(s.drop_first(), o)
    }
}

/// How many leading deliveries are acknowledged.
pub open spec fn acked_prefix(s: Seq<DeliveryView>) -> nat
    decreases s.len(),
{
    if s.len() == 0 || !s[0].acked {
        0
    } else {
        1 + acked_prefix(s.drop_first())
    }
}

/// The deliveries with the one at offset `o` marked acknowledged.
pub open spec fn mark_acked(s: Seq<DeliveryView>, o: int) -> Seq<DeliveryView> {
    Seq::new(
        s.len(),
        |i: int|
            if s[i].offset == o {
                DeliveryView { offset: o, acked: true }
            } else {
                s[i]
            },
    )
}

/// The position to commit once the first `k` deliveries are settled: the
/// offset after the last of them.
pub open spec fn commit_after(s: Seq<DeliveryView>, k: nat) -> Option<i64> {
    if k == 0 {
        None
    } else {
        Some((s[k - 1].offset + 1) as i64)
    }
}

/// Tracks the deliveries of one partition so that a commit never passes a
/// delivery that was not acknowledged: the commit position only moves over
/// a run of acknowledged deliveries at the front. A delivery that is never
/// acknowledged (a rejected one) holds the position back, so that it and what
/// follows are delivered again after a restart.
pub struct OffsetTracker {
    pending: Vec<Delivery>,
}

impl View for OffsetTracker {
    type V = Seq<DeliveryView>;

    closed spec fn view(&self) -> Seq<DeliveryView> {
        deliveries_view(self.pending@)
    }
}

proof fn lemma_count_below(s: Seq<DeliveryView>, o: int, i: int)
    requires
        well_ordered(s),
        0 <= i <= s.len(),
        forall|j: int| 0 <= j < i ==> s[j].offset < o,
        i == s.len() || s[i].offset >= o,
    ensures
        count_below(s, o) == i,
    decreases s.len(),
{
    if s.len() > 0 && s[0].offset < o {
        assert(i > 0);
        lemma_count_below(s.drop_first(), o, i - 1);
    }
}

proof fn lemma_acked_prefix(s: Seq<DeliveryView>, i: int)
    requires
        0 <= i <= s.len(),
        forall|j: int| 0 <= j < i ==> s[j].acked,
        i == s.len() || !s[i].acked,
    ensures
        acked_prefix(s) == i,
    decreases s.len(),
{
    if s.len() > 0 && s[0].acked {
        assert(i > 0);
        lemma_acked_prefix(s.drop_first(), i - 1);
    }
}

/// A commit never passes a delivery that was not acknowledged: when an ack
/// moves the commit position to `c`, every delivery below `c` was
/// acknowledged, and every delivery still tracked lies at or after `c`.
pub proof fn lemma_commit_safe(s: Seq<DeliveryView>, o: int)
    requires
        well_ordered(s),
    ensures
        ({
            let m = mark_acked(s, o);
            let k = acked_prefix(m);
            &&& k <= s.len()
            &&& forall|i: int| 0 <= i < k ==> (#[trigger] m[i]).acked
            &&& (k < s.len() ==> !m[k as int].acked)
            &&& match commit_after(m, k) {
                Some(c) => {
                    &&& forall|i: int| 0 <= i < k ==> (#[trigger] s[i]).offset < c
                    &&& forall|i: int| k <= i < s.len() ==> (#[trigger] s[i]).offset >= c
                },
                None => k == 0,
            }
        }),
{
    let m = mark_acked(s, o);
    lemma_prefix_facts(m);
}

proof fn lemma_prefix_facts(m: Seq<DeliveryView>)
    ensures
        acked_prefix(m) <= m.len(),
        forall|i: int| 0 <= i < acked_prefix(m) ==> (#[trigger] m[i]).acked,
        acked_prefix(m) < m.len() ==> !m[acked_prefix(m) as int].acked,
    decreases m.len(),
{
    if m.len() > 0 && m[0].acked {
        lemma_prefix_facts(m.drop_first());
        assert forall|i: int| 0 <= i < acked_prefix(m) implies (#[trigger] m[i]).acked by {
            if i > 0 {
                assert(m[i] == m.drop_first()[i - 1]);
            }
        }
    }
}

impl OffsetTracker {
    pub fn new() -> (r: OffsetTracker)
        ensures
            r@ == Seq::<DeliveryView>::empty(),
    {
        let r = OffsetTracker { pending: Vec::new() };
        assert(r@ =~= Seq::<DeliveryView>::empty());
        r
    }

    /// The number of deliveries not committed yet.
    pub fn len(&self) -> (r: usize)
        ensures
            r == self@.len(),
    {
        self.pending.len()
    }

    /// Records a delivery at offset `o`. An offset at or below one already
    /// tracked means the partition was rewound: the deliveries from `o` on
    /// are forgotten, since they come again. An offset that is not a real
    /// one (negative, or `i64::MAX`) is refused and changes nothing.
    pub fn deliver(&mut self, o: i64) -> (accepted: bool)
        requires
            well_ordered(old(self)@),
        ensures
            well_ordered(final(self)@),
            accepted == (0 <= o < i64::MAX),
            accepted ==> final(self)@ == old(self)@.take(count_below(old(self)@, o as int) as int).push(
                DeliveryView { offset: o as int, acked: false },
            ),
            !accepted ==> final(self)@ == old(self)@,
    {
        if o < 0 || o == i64::MAX {
            return false;
        }
        let ghost s = self@;
        let mut i: usize = 0;
        while i < self.pending.len() && self.pending[i].offset < o
            invariant
                s == deliveries_view(self.pending@),
                i <= s.len(),
                forall|j: int| 0 <= j < i ==> s[j].offset < o,
            decreases s.len() - i,
        {
            assert(s[i as int] == self.pending@[i as int]@);
            i = i + 1;
        }
        proof {
            if i < s.len() {
                assert(s[i as int] == self.pending@[i as int]@);
            }
            lemma_count_below(s, o as int, i as int);
        }
        self.pending.truncate(i);
        self.pending.push(Delivery { offset: o, acked: false });
        assert(self@ =~= s.take(i as int).push(DeliveryView { offset: o as int, acked: false }));
        true
    }

    /// Acknowledges the delivery at offset `o`, if tracked, and gives the new
    /// commit position when the acknowledged run at the front grew: the
    /// offset after the run, whose deliveries stop being tracked.
    pub fn ack(&mut self, o: i64) -> (commit: Option<i64>)
        requires
            well_ordered(old(self)@),
        ensures
            well_ordered(final(self)@),
            commit == commit_after(
                mark_acked(old(self)@, o as int),
                acked_prefix(mark_acked(old(self)@, o as int)),
            ),
            final(self)@ == mark_acked(old(self)@, o as int).skip(
                acked_prefix(mark_acked(old(self)@, o as int)) as int,
            ),
    {
        let ghost s = self@;
        let ghost m = mark_acked(s, o as int);
        let mut i: usize = 0;
        while i < self.pending.len()
            invariant
                m == mark_acked(s, o as int),
                i <= s.len(),
                self.pending@.len() == s.len(),
                forall|j: int| 0 <= j < i ==> self.pending@[j]@ == m[j],
                forall|j: int| i <= j < s.len() ==> self.pending@[j]@ == s[j],
            decreases s.len() - i,
        {
            if self.pending[i].offset == o {
                self.pending.set(i, Delivery { offset: o, acked: true });
            }
            i = i + 1;
        }
        assert(self@ =~= m);
        let mut k: usize = 0;
        while k < self.pending.len() && self.pending[k].acked
            invariant
                self@ == m,
                m.len() == s.len(),
                k <= m.len(),
                forall|j: int| 0 <= j < k ==> m[j].acked,
            decreases m.len() - k,
        {
            assert(m[k as int] == self.pending@[k as int]@);
            k = k + 1;
        }
        proof {
            if k < m.len() {
                assert(m[k as int] == self.pending@[k as int]@);
            }
            lemma_acked_prefix(m, k as int);
        }
        let commit = if k == 0 {
            None
        } else {
            assert(m[k - 1] == self.pending@[k - 1]@);
            Some(self.pending[k - 1].offset + 1)
        };
        let rest = self.pending.split_off(k);
        self.pending = rest;
        assert(self@ =~= m.skip(k as int));
        commit
    }
}

} // verus!
