use vstd::prelude::*;

use crate::model::{DeliveryToken, ProbeRequest, ProbeRequestView};

verus! {

/// A probe to run, with the token of the message that asked for it.
#[derive(Debug)]
pub struct Job {
    pub token: DeliveryToken,
    pub request: ProbeRequest,
}

pub struct JobView {
    pub token: DeliveryToken,
    pub request: ProbeRequestView,
}

impl View for Job {
    type V = JobView;

    open spec fn view(&self) -> JobView {
        JobView { token: self.token, request: self.request@ }
    }
}

pub open spec fn jobs_view(v: Seq<Job>) -> Seq<JobView> {
    v.map_values(|j: Job| j@)
}

pub open spec fn tokens_of(s: Seq<JobView>) -> Seq<DeliveryToken> {
    s.map_values(|j: JobView| j.token)
}

/// The bounded set of workers, as a scheduler: at most `size` probes run at
/// once, and the others wait in the order they were submitted.
pub struct WorkerPool {
    size: usize,
    running: Vec<Job>,
    waiting: Vec<Job>,
}

pub struct WorkerPoolView {
    pub size: nat,
    pub running: Seq<JobView>,
    pub waiting: Seq<JobView>,
}

impl View for WorkerPool {
    type V = WorkerPoolView;

    closed spec fn view(&self) -> WorkerPoolView {
        WorkerPoolView {
            size: self.size as nat,
            running: jobs_view(self.running@),
            waiting: jobs_view(self.waiting@),
        }
    }
}

impl WorkerPoolView {
    /// At most `size` jobs run; a job waits only while every worker is busy;
    /// no token is held twice.
    pub open spec fn wf(self) -> bool {
        &&& self.size > 0
        &&& self.running.len() <= self.size
        &&& self.waiting.len() > 0 ==> self.running.len() == self.size
        &&& tokens_of(self.running + self.waiting).no_duplicates()
    }

    pub open spec fn empty(size: nat) -> WorkerPoolView {
        WorkerPoolView { size, running: Seq::empty(), waiting: Seq::empty() }
    }

    pub open spec fn is_running(self, t: DeliveryToken) -> bool {
        tokens_of(self.running).contains(t)
    }

    pub open spec fn is_waiting(self, t: DeliveryToken) -> bool {
        tokens_of(self.waiting).contains(t)
    }

    pub open spec fn holds(self, t: DeliveryToken) -> bool {
        self.is_running(t) || self.is_waiting(t)
    }

    /// A new job starts at once when a worker is free, and queues otherwise.
    pub open spec fn submit(self, job: JobView) -> (WorkerPoolView, bool) {
        if self.running.len() < self.size {
            (WorkerPoolView { running: self.running.push(job), ..self }, true)
        } else {
            (WorkerPoolView { waiting: self.waiting.push(job), ..self }, false)
        }
    }

    /// The running job of token `t` leaves its worker, which takes the job at
    /// the head of the queue, if any. Gives the job that finished and the one
    /// that started. A token that is not running changes nothing.
    pub open spec fn finish(self, t: DeliveryToken) -> (
        WorkerPoolView,
        Option<JobView>,
        Option<JobView>,
    ) {
        if !self.is_running(t) {
            (self, None, None)
        } else {
            let i = tokens_of(self.running).index_of(t);
            let rest = self.running.remove(i);
            if self.waiting.len() == 0 {
                (WorkerPoolView { running: rest, ..self }, Some(self.running[i]), None)
            } else {
                (
                    WorkerPoolView {
                        running: rest.push(self.waiting[0]),
                        waiting: self.waiting.drop_first(),
                        ..self
                    },
                    Some(self.running[i]),
                    Some(self.waiting[0]),
                )
            }
        }
    }

    /// Submits `jobs` one after another.
    pub open spec fn submit_all(self, jobs: Seq<JobView>) -> WorkerPoolView
        decreases jobs.len(),
    {
        if jobs.len() == 0 {
            self
        } else {
            self.submit_all(jobs.drop_last()).submit(jobs.last()).0
        }
    }
}

/// Submitting preserves well-formedness: in particular the number of running
/// jobs never exceeds the pool's size.
pub proof fn lemma_submit_wf(p: WorkerPoolView, job: JobView)
    requires
        p.wf(),
        !p.holds(job.token),
    ensures
        p.submit(job).0.wf(),
        p.submit(job).0.running.len() <= p.size,
{
    let q = p.submit(job).0;
    let all = tokens_of(p.running + p.waiting);
    let all2 = tokens_of(q.running + q.waiting);
    lemma_holds_all(p, job.token);
    // the new token goes after the running jobs, or after the waiting ones
    let at = if p.running.len() < p.size {
        p.running.len() as int
    } else {
        all.len() as int
    };
    assert(q.running + q.waiting =~= (p.running + p.waiting).insert(at, job));
    assert(all2 =~= all.insert(at, job.token));
    assert forall|i: int, j: int|
        0 <= i < all2.len() && 0 <= j < all2.len() && i != j implies all2[i] != all2[j] by {
        let i2 = if i < at {
            i
        } else {
            i - 1
        };
        let j2 = if j < at {
            j
        } else {
            j - 1
        };
        if i != at {
            assert(all2[i] == all[i2]);
        }
        if j != at {
            assert(all2[j] == all[j2]);
        }
    }
}

/// Finishing a job preserves well-formedness; the pool lets go of the
/// finished token and of no other.
pub proof fn lemma_finish_wf(p: WorkerPoolView, t: DeliveryToken)
    requires
        p.wf(),
    ensures
        p.finish(t).0.wf(),
        p.finish(t).0.size == p.size,
        p.finish(t).1 is Some <==> p.is_running(t),
        p.finish(t).1 is Some ==> p.finish(t).1->0.token == t,
        p.is_running(t) ==> !p.finish(t).0.holds(t),
        p.is_running(t) ==> forall|u: DeliveryToken|
            u != t ==> (p.finish(t).0.holds(u) <==> p.holds(u)),
        !p.is_running(t) ==> p.finish(t).0 == p,
{
    if p.is_running(t) {
        let i = tokens_of(p.running).index_of(t);
        let q = p.finish(t).0;
        let rest = p.running.remove(i);
        assert(tokens_of(p.running)[i] == t);
        let all = tokens_of(p.running + p.waiting);
        assert(all.len() == p.running.len() + p.waiting.len());
        // every other position of `all` holds a token other than t
        assert forall|k: int| 0 <= k < all.len() && k != i implies all[k] != t by {
            assert(all[i] == t);
        }
        if p.waiting.len() == 0 {
            assert(q.running + q.waiting =~= rest);
        } else {
            assert(q.running + q.waiting =~= rest.push(p.waiting[0]) + p.waiting.drop_first());
        }
        let all2 = tokens_of(q.running + q.waiting);
        // all2 is `all` with position i taken out
        assert(all2 =~= all.remove(i)) by {
            if p.waiting.len() > 0 {
                assert(rest.push(p.waiting[0]) + p.waiting.drop_first() =~= (p.running
                    + p.waiting).remove(i));
            } else {
                assert(rest =~= (p.running + p.waiting).remove(i));
            }
        }
        assert forall|a: int, b: int|
            0 <= a < all2.len() && 0 <= b < all2.len() && a != b implies all2[a] != all2[b] by {
            let a2 = if a < i {
                a
            } else {
                a + 1
            };
            let b2 = if b < i {
                b
            } else {
                b + 1
            };
            assert(all2[a] == all[a2]);
            assert(all2[b] == all[b2]);
        }
        assert forall|u: DeliveryToken| true implies (q.holds(u) <==> (u != t && p.holds(u))) by {
            lemma_holds_all(p, u);
            lemma_holds_all(q, u);
            if all2.contains(u) {
                let k = choose|k: int| 0 <= k < all2.len() && all2[k] == u;
                let k2 = if k < i {
                    k
                } else {
                    k + 1
                };
                assert(all[k2] == u);
                assert(k2 != i);
            }
            if u != t && all.contains(u) {
                let k = choose|k: int| 0 <= k < all.len() && all[k] == u;
                assert(k != i);
                let k2 = if k < i {
                    k
                } else {
                    k - 1
                };
                assert(all2[k2] == u);
            }
        }
    }
}

/// A token is held exactly when it appears among the running or waiting jobs.
pub proof fn lemma_holds_all(p: WorkerPoolView, u: DeliveryToken)
    ensures
        p.holds(u) <==> tokens_of(p.running + p.waiting).contains(u),
{
    let all = tokens_of(p.running + p.waiting);
    let rl = p.running.len() as int;
    if tokens_of(p.running).contains(u) {
        let k = choose|k: int| 0 <= k < rl && tokens_of(p.running)[k] == u;
        assert(all[k] == u);
    }
    if tokens_of(p.waiting).contains(u) {
        let k = choose|k: int| 0 <= k < p.waiting.len() && tokens_of(p.waiting)[k] == u;
        assert(all[k + rl] == u);
    }
    if all.contains(u) {
        let k = choose|k: int| 0 <= k < all.len() && all[k] == u;
        if k < rl {
            assert(tokens_of(p.running)[k] == u);
        } else {
            assert(tokens_of(p.waiting)[k - rl] == u);
        }
    }
}

/// After a submit a token waits exactly when it waited before, or when it is
/// the new job's and no worker was free.
pub proof fn lemma_submit_waiting(p: WorkerPoolView, job: JobView, v: DeliveryToken)
    ensures
        p.submit(job).0.is_waiting(v) <==> (p.is_waiting(v) || (v == job.token
            && !p.submit(job).1)),
{
    let tw = tokens_of(p.waiting);
    if p.running.len() < p.size {
        assert(tokens_of(p.submit(job).0.waiting) =~= tw);
    } else {
        assert(tokens_of(p.submit(job).0.waiting) =~= tw.push(job.token));
        if tw.push(job.token).contains(v) && v != job.token {
            let k = choose|k: int| 0 <= k < tw.push(job.token).len() && tw.push(job.token)[k] == v;
            assert(tw[k] == v);
        }
        if tw.contains(v) {
            let k = choose|k: int| 0 <= k < tw.len() && tw[k] == v;
            assert(tw.push(job.token)[k] == v);
        }
        assert(tw.push(job.token)[tw.len() as int] == job.token);
    }
}

/// Finishing a running job starts the job that waited longest, which stops
/// waiting; every other token keeps waiting or not.
pub proof fn lemma_finish_waiting(p: WorkerPoolView, t: DeliveryToken, v: DeliveryToken)
    requires
        p.wf(),
        p.is_running(t),
    ensures
        p.finish(t).2 is Some ==> p.is_waiting(p.finish(t).2->0.token),
        p.finish(t).0.is_waiting(v) <==> (p.is_waiting(v) && !(p.finish(t).2 is Some
            && p.finish(t).2->0.token == v)),
{
    let tw = tokens_of(p.waiting);
    let all = tokens_of(p.running + p.waiting);
    let rl = p.running.len() as int;
    if p.waiting.len() > 0 {
        assert(tw[0] == p.waiting[0].token);
        assert(tokens_of(p.finish(t).0.waiting) =~= tw.drop_first());
        if tw.drop_first().contains(v) {
            let k = choose|k: int| 0 <= k < tw.drop_first().len() && tw.drop_first()[k] == v;
            assert(tw[k + 1] == v);
            assert(all[rl + k + 1] == v);
            assert(all[rl] == tw[0]);
        }
        if tw.contains(v) && v != tw[0] {
            let k = choose|k: int| 0 <= k < tw.len() && tw[k] == v;
            assert(k != 0);
            assert(tw.drop_first()[k - 1] == v);
        }
    }
}

/// However many jobs arrive at once on an idle pool, the first `size` of
/// them run and the rest wait in arrival order: the number running never
/// exceeds the pool's size.
pub proof fn lemma_burst_bounded(size: nat, jobs: Seq<JobView>)
    requires
        size > 0,
    ensures
        WorkerPoolView::empty(size).submit_all(jobs).size == size,
        WorkerPoolView::empty(size).submit_all(jobs).running.len() <= size,
        WorkerPoolView::empty(size).submit_all(jobs).running == jobs.take(
            if jobs.len() < size {
                jobs.len() as int
            } else {
                size as int
            },
        ),
        WorkerPoolView::empty(size).submit_all(jobs).waiting == jobs.skip(
            if jobs.len() < size {
                jobs.len() as int
            } else {
                size as int
            },
        ),
    decreases jobs.len(),
{
    if jobs.len() > 0 {
        lemma_burst_bounded(size, jobs.drop_last());
        let n = jobs.len() as int;
        let prev = WorkerPoolView::empty(size).submit_all(jobs.drop_last());
        assert(WorkerPoolView::empty(size).submit_all(jobs) == prev.submit(jobs.last()).0);
        if n - 1 < size {
            assert(prev.running =~= jobs.take(n - 1));
            assert(prev.running.push(jobs.last()) =~= jobs.take(n));
            assert(prev.waiting =~= Seq::<JobView>::empty());
            assert(jobs.skip(n) =~= Seq::<JobView>::empty());
            assert(prev.running.len() < size);
            let cur = prev.submit(jobs.last()).0;
            assert(cur.running == jobs.take(n));
            assert(cur.waiting == jobs.skip(n));
        } else {
            let m = size as int;
            assert(prev.running =~= jobs.take(m));
            assert(prev.waiting =~= jobs.drop_last().skip(m));
            assert(prev.waiting.push(jobs.last()) =~= jobs.skip(m));
            let cur = prev.submit(jobs.last()).0;
            assert(cur.running == jobs.take(m));
            assert(cur.waiting == jobs.skip(m));
        }
    } else {
        assert(jobs.take(0) =~= Seq::<JobView>::empty());
        assert(jobs.skip(0) =~= Seq::<JobView>::empty());
    }
}

impl WorkerPool {
    /// An idle pool of `size` workers.
    pub fn new(size: usize) -> (r: WorkerPool)
        requires
            size > 0,
        ensures
            r@ == WorkerPoolView::empty(size as nat),
            r@.wf(),
    {
        let r = WorkerPool { size, running: Vec::new(), waiting: Vec::new() };
        assert(r@.running =~= Seq::<JobView>::empty());
        assert(r@.waiting =~= Seq::<JobView>::empty());
        assert(tokens_of(r@.running + r@.waiting) =~= Seq::<DeliveryToken>::empty());
        r
    }

    pub fn size(&self) -> (r: usize)
        ensures
            r == self@.size,
    {
        self.size
    }

    /// The number of probes in flight.
    pub fn in_flight(&self) -> (r: usize)
        ensures
            r == self@.running.len(),
    {
        self.running.len()
    }

    /// The number of probes waiting for a worker.
    pub fn queued(&self) -> (r: usize)
        ensures
            r == self@.waiting.len(),
    {
        self.waiting.len()
    }

    fn find(v: &Vec<Job>, t: DeliveryToken) -> (r: Option<usize>)
        ensures
            match r {
                Some(i) => i < v@.len() && v@[i as int].token == t,
                None => !tokens_of(jobs_view(v@)).contains(t),
            },
    {
        let mut i: usize = 0;
        while i < v.len()
            invariant
                i <= v@.len(),
                forall|j: int| 0 <= j < i ==> v@[j].token != t,
            decreases v@.len() - i,
        {
            if v[i].token == t {
                return Some(i);
            }
            i = i + 1;
        }
        assert forall|j: int| 0 <= j < v@.len() implies tokens_of(jobs_view(v@))[j] != t by {
            assert(tokens_of(jobs_view(v@))[j] == v@[j].token);
        }
        None
    }

    /// Whether the pool runs or queues a job of token `t`.
    pub fn holds(&self, t: DeliveryToken) -> (r: bool)
        ensures
            r == self@.holds(t),
    {
        let a = WorkerPool::find(&self.running, t);
        let b = WorkerPool::find(&self.waiting, t);
        proof {
            if let Some(i) = a {
                assert(tokens_of(self@.running)[i as int] == t);
            }
            if let Some(i) = b {
                assert(tokens_of(self@.waiting)[i as int] == t);
            }
        }
        a.is_some() || b.is_some()
    }

    /// Hands a job to the pool: it starts at once when a worker is free
    /// (the result is then `true`), and waits in line otherwise.
    pub fn submit(&mut self, token: DeliveryToken, request: ProbeRequest) -> (started: bool)
        requires
            old(self)@.wf(),
            !old(self)@.holds(token),
        ensures
            (final(self)@, started) == old(self)@.submit(JobView { token, request: request@ }),
            final(self)@.wf(),
    {
        let job = Job { token, request };
        proof {
            lemma_submit_wf(self@, job@);
        }
        if self.running.len() < self.size {
            self.running.push(job);
            assert(jobs_view(self.running@) =~= jobs_view(old(self).running@).push(job@));
            true
        } else {
            self.waiting.push(job);
            assert(jobs_view(self.waiting@) =~= jobs_view(old(self).waiting@).push(job@));
            false
        }
    }

    /// The probe of token `t` is done: its job leaves the pool and the job
    /// that waited longest takes the free worker. Gives the finished job, and
    /// the token and target of the job that started.
    pub fn finish(&mut self, t: DeliveryToken) -> (r: (Option<Job>, Option<(DeliveryToken, String)>))
        requires
            old(self)@.wf(),
        ensures
            final(self)@ == old(self)@.finish(t).0,
            final(self)@.wf(),
            match (r.0, old(self)@.finish(t).1) {
                (Some(j), Some(v)) => j@ == v,
                (None, None) => true,
                _ => false,
            },
            match (r.1, old(self)@.finish(t).2) {
                (Some((u, url)), Some(v)) => u == v.token && url@ == v.request.url,
                (None, None) => true,
                _ => false,
            },
    {
        proof {
            lemma_finish_wf(self@, t);
        }
        let ghost p = self@;
        match WorkerPool::find(&self.running, t) {
            None => (None, None),
            Some(i) => {
                proof {
                    let k = tokens_of(p.running).index_of(t);
                    assert(tokens_of(p.running)[i as int] == t);
                    assert(tokens_of(p.running + p.waiting)[i as int] == t);
                    assert(tokens_of(p.running + p.waiting)[k] == t);
                    assert(k == i);
                }
                let done = self.running.remove(i);
                assert(jobs_view(self.running@) =~= p.running.remove(i as int));
                if self.waiting.len() == 0 {
                    (Some(done), None)
                } else {
                    let next = self.waiting.remove(0);
                    let started = (next.token, next.request.url.clone());
                    let ghost before = self.running@;
                    self.running.push(next);
                    assert(jobs_view(self.running@) =~= jobs_view(before).push(next@));
                    assert(jobs_view(self.waiting@) =~= p.waiting.drop_first());
                    (Some(done), Some(started))
                }
            },
        }
    }
}

} // verus!
