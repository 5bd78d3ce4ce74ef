use vstd::prelude::*;

use crate::clock::now;
use crate::model::{
    points_view, DeliveryToken, DomainTestResult, DomainTestResultView, PointView, ProbeRequest,
    ProbeRequestView, TimeSeriesPoint, Timestamp,
};
use crate::points::{points_for_result, result_points};
use crate::pool::{
    lemma_finish_waiting, lemma_finish_wf, lemma_submit_waiting, lemma_submit_wf, JobView, WorkerPool,
    WorkerPoolView,
};

verus! {

/// What the loop receives: a message from the queue, with its payload
/// decoded (`None` when it did not decode), or a probe's completion.
#[derive(Debug)]
pub enum PipelineEvent {
    Inbound { token: DeliveryToken, payload: Option<ProbeRequest> },
    Completion { token: DeliveryToken, result: DomainTestResult },
}

/// What the loop asks its owner to do.
#[derive(Debug)]
pub enum Action {
    /// Run the probe of `token` against `url` on a worker.
    Start { token: DeliveryToken, url: String },
    /// Write `points` to the sink, then report the outcome for `token`.
    Emit { token: DeliveryToken, points: Vec<TimeSeriesPoint> },
    /// Acknowledge the message of `token`.
    Ack { token: DeliveryToken },
    /// Reject the message of `token`, so that it is delivered again.
    Reject { token: DeliveryToken },
}

pub enum ActionView {
    Start { token: DeliveryToken, url: Seq<char> },
    Emit { token: DeliveryToken, points: Seq<PointView> },
    Ack { token: DeliveryToken },
    Reject { token: DeliveryToken },
}

impl View for Action {
    type V = ActionView;

    open spec fn view(&self) -> ActionView {
        match self {
            Action::Start { token, url } => ActionView::Start { token: *token, url: url@ },
            Action::Emit { token, points } => ActionView::Emit {
                token: *token,
                points: points_view(points@),
            },
            Action::Ack { token } => ActionView::Ack { token: *token },
            Action::Reject { token } => ActionView::Reject { token: *token },
        }
    }
}

pub open spec fn actions_view(v: Seq<Action>) -> Seq<ActionView> {
    v.map_values(|a: Action| a@)
}

/// One input of the loop, as the loop's specification sees it.
pub enum LoopInput {
    Inbound(DeliveryToken, Option<ProbeRequestView>),
    Completion(DeliveryToken, DomainTestResultView, Timestamp),
    Emitted(DeliveryToken, bool),
}

pub open spec fn payload_view(p: Option<ProbeRequest>) -> Option<ProbeRequestView> {
    match p {
        Some(r) => Some(r@),
        None => None,
    }
}

pub open spec fn event_input(e: PipelineEvent, ts: Timestamp) -> LoopInput {
    match e {
        PipelineEvent::Inbound { token, payload } => LoopInput::Inbound(token, payload_view(payload)),
        PipelineEvent::Completion { token, result } => LoopInput::Completion(token, result@, ts),
    }
}

/// Whether `a` acknowledges or rejects `t`.
pub open spec fn settles(a: ActionView, t: DeliveryToken) -> bool {
    a == ActionView::Ack { token: t } || a == ActionView::Reject { token: t }
}

/// The kinds of action that the loop's laws count.
pub enum ActionKind {
    Start,
    Emit,
    Settle,
    Reject,
}

/// Whether `a` is an action of kind `k` for `t`.
pub open spec fn is_kind(a: ActionView, t: DeliveryToken, k: ActionKind) -> bool {
    match k {
        ActionKind::Start => a is Start && a->Start_token == t,
        ActionKind::Emit => a is Emit && a->Emit_token == t,
        ActionKind::Settle => settles(a, t),
        ActionKind::Reject => a == ActionView::Reject { token: t },
    }
}

/// How many actions of `acts` are of kind `k` for `t`.
pub open spec fn count_kind(acts: Seq<ActionView>, t: DeliveryToken, k: ActionKind) -> nat
    decreases acts.len(),
{
    if acts.len() == 0 {
        0
    } else {
        count_kind(acts.drop_last(), t, k) + one_if(is_kind(acts.last(), t, k))
    }
}

pub open spec fn one_if(b: bool) -> nat {
    if b {
        1
    } else {
        0
    }
}

pub proof fn lemma_count_small(a: ActionView, b: ActionView, t: DeliveryToken, k: ActionKind)
    ensures
        count_kind(Seq::<ActionView>::empty(), t, k) == 0,
        count_kind(seq![a], t, k) == one_if(is_kind(a, t, k)),
        count_kind(seq![a, b], t, k) == one_if(is_kind(a, t, k)) + one_if(is_kind(b, t, k)),
{
    assert(seq![a].drop_last() =~= Seq::<ActionView>::empty());
    assert(seq![a, b].drop_last() =~= seq![a]);
    assert(count_kind(Seq::<ActionView>::empty(), t, k) == 0);
    assert(seq![a].last() == a);
    assert(seq![a, b].last() == b);
    assert(count_kind(seq![a], t, k) == one_if(is_kind(a, t, k)));
}

/// The control loop's state: the worker pool with the requests it runs or
/// queues, and the tokens whose points are being written.
pub struct LoopView {
    pub pool: WorkerPoolView,
    pub emitting: Seq<DeliveryToken>,
}

impl LoopView {
    pub open spec fn wf(self) -> bool {
        &&& self.pool.wf()
        &&& self.emitting.no_duplicates()
        &&& forall|t: DeliveryToken| self.emitting.contains(t) ==> !self.pool.holds(t)
    }

    /// Whether the loop owes the queue an ack or a reject for `t`.
    pub open spec fn holds(self, t: DeliveryToken) -> bool {
        self.pool.holds(t) || self.emitting.contains(t)
    }

    /// A message arrives. One whose token the loop already holds is a
    /// duplicate and is left alone. One that did not decode is acknowledged
    /// at once, since it can never succeed, and starts no probe. A request is
    /// handed to the pool, and started at once if a worker is free.
    pub open spec fn inbound(self, t: DeliveryToken, payload: Option<ProbeRequestView>) -> (
        LoopView,
        Seq<ActionView>,
    ) {
        if self.holds(t) {
            (self, Seq::empty())
        } else {
            match payload {
                None => (self, seq![ActionView::Ack { token: t }]),
                Some(req) => {
                    let (pool, started) = self.pool.submit(JobView { token: t, request: req });
                    (
                        LoopView { pool, ..self },
                        if started {
                            seq![ActionView::Start { token: t, url: req.url }]
                        } else {
                            Seq::empty()
                        },
                    )
                },
            }
        }
    }

    /// A probe completes: its points are handed out for writing, and the
    /// freed worker takes the next waiting request. A completion for a token
    /// that is not running is ignored.
    pub open spec fn completion(self, t: DeliveryToken, result: DomainTestResultView, ts: Timestamp) -> (
        LoopView,
        Seq<ActionView>,
    ) {
        let (pool, done, started) = self.pool.finish(t);
        match done {
            None => (self, Seq::empty()),
            Some(job) => {
                let emit = ActionView::Emit { token: t, points: result_points(job.request, result, ts) };
                (
                    LoopView { pool, emitting: self.emitting.push(t) },
                    match started {
                        None => seq![emit],
                        Some(next) => seq![
                            emit,
                            ActionView::Start { token: next.token, url: next.request.url },
                        ],
                    },
                )
            },
        }
    }

    /// The points of `t` were written (`ok`) or could not be: the message is
    /// acknowledged on success and rejected on failure. An outcome for a token
    /// that is not being written is ignored.
    pub open spec fn emitted(self, t: DeliveryToken, ok: bool) -> (LoopView, Seq<ActionView>) {
        if !self.emitting.contains(t) {
            (self, Seq::empty())
        } else {
            (
                LoopView { emitting: self.emitting.remove(self.emitting.index_of(t)), ..self },
                seq![
                    if ok {
                        ActionView::Ack { token: t }
                    } else {
                        ActionView::Reject { token: t }
                    },
                ],
            )
        }
    }

    pub open spec fn step(self, input: LoopInput) -> (LoopView, Seq<ActionView>) {
        match input {
            LoopInput::Inbound(t, payload) => self.inbound(t, payload),
            LoopInput::Completion(t, result, ts) => self.completion(t, result, ts),
            LoopInput::Emitted(t, ok) => self.emitted(t, ok),
        }
    }

    /// The state after the inputs, one after another.
    pub open spec fn run(self, inputs: Seq<LoopInput>) -> LoopView
        decreases inputs.len(),
    {
        if inputs.len() == 0 {
            self
        } else {
            self.run(inputs.drop_last()).step(inputs.last()).0
        }
    }

    /// How many acks and rejects of `t` the inputs give rise to.
    pub open spec fn settled(self, inputs: Seq<LoopInput>, t: DeliveryToken) -> nat
        decreases inputs.len(),
    {
        if inputs.len() == 0 {
            0
        } else {
            self.settled(inputs.drop_last(), t) + count_kind(
                self.run(inputs.drop_last()).step(inputs.last()).1,
                t,
                ActionKind::Settle,
            )
        }
    }

    /// How many deliveries of `t` the loop takes on: messages of `t` that
    /// arrive while the loop does not hold `t`.
    pub open spec fn admitted(self, inputs: Seq<LoopInput>, t: DeliveryToken) -> nat
        decreases inputs.len(),
    {
        if inputs.len() == 0 {
            0
        } else {
            let before = self.run(inputs.drop_last());
            self.admitted(inputs.drop_last(), t) + match inputs.last() {
                LoopInput::Inbound(u, _) => one_if(u == t && !before.holds(t)),
                _ => 0nat,
            }
        }
    }
}

/// One step keeps the loop well formed, and for every token the acks and
/// rejects it issues balance the deliveries it takes on.
pub proof fn lemma_step(s: LoopView, input: LoopInput, t: DeliveryToken)
    requires
        s.wf(),
    ensures
        s.step(input).0.wf(),
        count_kind(s.step(input).1, t, ActionKind::Settle) + one_if(s.step(input).0.holds(t))
            == one_if(s.holds(t)) + match input {
            LoopInput::Inbound(u, _) => one_if(u == t && !s.holds(t)),
            _ => 0nat,
        },
{
    let (s2, acts) = s.step(input);
    lemma_count_small(ActionView::Ack { token: t }, ActionView::Ack { token: t }, t, ActionKind::Settle);
    match input {
        LoopInput::Inbound(u, payload) => {
            if !s.holds(u) {
                match payload {
                    None => {
                        let a = ActionView::Ack { token: u };
                        lemma_count_small(a, a, t, ActionKind::Settle);
                    },
                    Some(req) => {
                        let job = JobView { token: u, request: req };
                        lemma_submit_wf(s.pool, job);
                        let p2 = s.pool.submit(job).0;
                        assert forall|v: DeliveryToken| true implies (p2.holds(v) <==> (v == u
                            || s.pool.holds(v))) by {
                            lemma_submit_holds(s.pool, job, v);
                        }
                        if s.pool.submit(job).1 {
                            {
                                let start = ActionView::Start { token: u, url: req.url };
                                lemma_count_small(start, start, t, ActionKind::Settle);
                            }
                        }
                    },
                }
            }
        },
        LoopInput::Completion(u, result, ts) => {
            lemma_finish_wf(s.pool, u);
            let (p2, done, started) = s.pool.finish(u);
            if done is Some {
                let emit = ActionView::Emit {
                    token: u,
                    points: result_points(done->0.request, result, ts),
                };
                assert(s2.emitting == s.emitting.push(u));
                assert(!s.emitting.contains(u));
                assert forall|i: int, j: int|
                    0 <= i < s2.emitting.len() && 0 <= j < s2.emitting.len() && i != j implies s2.emitting[i]
                    != s2.emitting[j] by {
                    if i == s.emitting.len() {
                        assert(s.emitting[j] == s2.emitting[j]);
                    } else if j == s.emitting.len() {
                        assert(s.emitting[i] == s2.emitting[i]);
                    }
                }
                assert(s2.pool == p2);
                assert(!p2.holds(u));
                assert forall|v: DeliveryToken| s2.emitting.contains(v) implies !s2.pool.holds(v) by {
                    if v != u {
                        let k = choose|k: int| 0 <= k < s2.emitting.len() && s2.emitting[k] == v;
                        assert(s.emitting[k] == v);
                        assert(s.emitting.contains(v));
                        assert(!s.pool.holds(v));
                        assert(p2.holds(v) <==> s.pool.holds(v));
                    }
                }
                assert(s2.emitting[s.emitting.len() as int] == u);
                assert(s2.holds(u));
                assert forall|v: DeliveryToken| true implies (s2.holds(v) <==> s.holds(v)) by {
                    if v != u {
                        assert(p2.holds(v) <==> s.pool.holds(v));
                    }
                    if s.emitting.contains(v) {
                        let k = choose|k: int| 0 <= k < s.emitting.len() && s.emitting[k] == v;
                        assert(s2.emitting[k] == v);
                    }
                    if s2.emitting.contains(v) && v != u {
                        let k = choose|k: int| 0 <= k < s2.emitting.len() && s2.emitting[k] == v;
                        assert(s.emitting[k] == v);
                    }
                }
                match started {
                    None => lemma_count_small(emit, emit, t, ActionKind::Settle),
                    Some(next) => lemma_count_small(
                        emit,
                        ActionView::Start { token: next.token, url: next.request.url },
                        t,
                        ActionKind::Settle,
                    ),
                }
            }
        },
        LoopInput::Emitted(u, ok) => {
            if s.emitting.contains(u) {
                let i = s.emitting.index_of(u);
                let e2 = s.emitting.remove(i);
                assert forall|a: int, b: int|
                    0 <= a < e2.len() && 0 <= b < e2.len() && a != b implies e2[a] != e2[b] by {
                    let a2 = if a < i {
                        a
                    } else {
                        a + 1
                    };
                    let b2 = if b < i {
                        b
                    } else {
                        b + 1
                    };
                    assert(e2[a] == s.emitting[a2]);
                    assert(e2[b] == s.emitting[b2]);
                }
                assert forall|v: DeliveryToken| true implies (e2.contains(v) <==> (v != u
                    && s.emitting.contains(v))) by {
                    if e2.contains(v) {
                        let k = choose|k: int| 0 <= k < e2.len() && e2[k] == v;
                        let k2 = if k < i {
                            k
                        } else {
                            k + 1
                        };
                        assert(s.emitting[k2] == v);
                        assert(k2 != i);
                    }
                    if v != u && s.emitting.contains(v) {
                        let k = choose|k: int| 0 <= k < s.emitting.len() && s.emitting[k] == v;
                        assert(k != i);
                        let k2 = if k < i {
                            k
                        } else {
                            k - 1
                        };
                        assert(e2[k2] == v);
                    }
                }
                let settle = if ok {
                    ActionView::Ack { token: u }
                } else {
                    ActionView::Reject { token: u }
                };
                lemma_count_small(settle, settle, t, ActionKind::Settle);
            }
        },
    }
}

/// After a submit the pool holds exactly what it held, and the new token.
pub proof fn lemma_submit_holds(p: WorkerPoolView, job: JobView, v: DeliveryToken)
    ensures
        p.submit(job).0.holds(v) <==> (v == job.token || p.holds(v)),
{
    let q = p.submit(job).0;
    if p.running.len() < p.size {
        assert(crate::pool::tokens_of(q.running) =~= crate::pool::tokens_of(p.running).push(
            job.token,
        ));
        assert(crate::pool::tokens_of(q.waiting) =~= crate::pool::tokens_of(p.waiting));
    } else {
        assert(crate::pool::tokens_of(q.waiting) =~= crate::pool::tokens_of(p.waiting).push(
            job.token,
        ));
        assert(crate::pool::tokens_of(q.running) =~= crate::pool::tokens_of(p.running));
    }
    let tr = crate::pool::tokens_of(p.running);
    let tw = crate::pool::tokens_of(p.waiting);
    if tr.push(job.token).contains(v) && v != job.token {
        let k = choose|k: int| 0 <= k < tr.push(job.token).len() && tr.push(job.token)[k] == v;
        assert(tr[k] == v);
    }
    if tw.push(job.token).contains(v) && v != job.token {
        let k = choose|k: int| 0 <= k < tw.push(job.token).len() && tw.push(job.token)[k] == v;
        assert(tw[k] == v);
    }
    if tr.contains(v) {
        let k = choose|k: int| 0 <= k < tr.len() && tr[k] == v;
        assert(tr.push(job.token)[k] == v);
    }
    if tw.contains(v) {
        let k = choose|k: int| 0 <= k < tw.len() && tw[k] == v;
        assert(tw.push(job.token)[k] == v);
    }
    assert(tr.push(job.token)[tr.len() as int] == job.token);
    assert(tw.push(job.token)[tw.len() as int] == job.token);
}

/// Every delivery is settled exactly once. Over any run of the loop, for
/// every token, the acks and rejects issued plus one if the loop still holds
/// the token equal the deliveries the loop took on plus one if it held the
/// token at the start: a token is never acknowledged or rejected twice for
/// one delivery, and is never let go without an ack or a reject.
pub proof fn lemma_settled_once(s: LoopView, inputs: Seq<LoopInput>, t: DeliveryToken)
    requires
        s.wf(),
    ensures
        s.run(inputs).wf(),
        s.settled(inputs, t) + one_if(s.run(inputs).holds(t)) == s.admitted(inputs, t) + one_if(
            s.holds(t),
        ),
    decreases inputs.len(),
{
    if inputs.len() > 0 {
        lemma_settled_once(s, inputs.drop_last(), t);
        lemma_step(s.run(inputs.drop_last()), inputs.last(), t);
    }
}

impl LoopView {
    /// How many results of `t` the inputs hand out for writing.
    pub open spec fn results(self, inputs: Seq<LoopInput>, t: DeliveryToken) -> nat
        decreases inputs.len(),
    {
        if inputs.len() == 0 {
            0
        } else {
            self.results(inputs.drop_last(), t) + count_kind(
                self.run(inputs.drop_last()).step(inputs.last()).1,
                t,
                ActionKind::Emit,
            )
        }
    }

    /// How many requests of `t` the loop takes on: decoded messages of `t`
    /// that arrive while the loop does not hold `t`.
    pub open spec fn requests(self, inputs: Seq<LoopInput>, t: DeliveryToken) -> nat
        decreases inputs.len(),
    {
        if inputs.len() == 0 {
            0
        } else {
            let before = self.run(inputs.drop_last());
            self.requests(inputs.drop_last(), t) + match inputs.last() {
                LoopInput::Inbound(u, Some(_)) => one_if(u == t && !before.holds(t)),
                _ => 0nat,
            }
        }
    }
}

/// One step hands out a result of `t` exactly when the pool lets go of `t`,
/// and the pool takes `t` on exactly when a decoded message of `t` is
/// admitted.
pub proof fn lemma_step_results(s: LoopView, input: LoopInput, t: DeliveryToken)
    requires
        s.wf(),
    ensures
        count_kind(s.step(input).1, t, ActionKind::Emit) + one_if(s.step(input).0.pool.holds(t))
            == one_if(s.pool.holds(t)) + match input {
            LoopInput::Inbound(u, Some(_)) => one_if(u == t && !s.holds(t)),
            _ => 0nat,
        },
{
    let (s2, acts) = s.step(input);
    let ack = ActionView::Ack { token: t };
    lemma_count_small(ack, ack, t, ActionKind::Emit);
    match input {
        LoopInput::Inbound(u, payload) => {
            if !s.holds(u) {
                match payload {
                    None => {
                        lemma_count_small(ActionView::Ack { token: u }, ack, t, ActionKind::Emit);
                    },
                    Some(req) => {
                        let job = JobView { token: u, request: req };
                        lemma_submit_holds(s.pool, job, t);
                        let start = ActionView::Start { token: u, url: req.url };
                        lemma_count_small(start, ack, t, ActionKind::Emit);
                    },
                }
            }
        },
        LoopInput::Completion(u, result, ts) => {
            lemma_finish_wf(s.pool, u);
            let (p2, done, started) = s.pool.finish(u);
            if done is Some {
                let emit = ActionView::Emit {
                    token: u,
                    points: result_points(done->0.request, result, ts),
                };
                match started {
                    None => lemma_count_small(emit, ack, t, ActionKind::Emit),
                    Some(next) => lemma_count_small(
                        emit,
                        ActionView::Start { token: next.token, url: next.request.url },
                        t,
                        ActionKind::Emit,
                    ),
                }
            }
        },
        LoopInput::Emitted(u, ok) => {
            lemma_count_small(ActionView::Ack { token: u }, ack, t, ActionKind::Emit);
            lemma_count_small(ActionView::Reject { token: u }, ack, t, ActionKind::Emit);
        },
    }
}

/// Every request the loop takes on yields exactly one result. Over any run,
/// for every token, the results handed out for writing plus one if the pool
/// still holds the token equal the decoded deliveries taken on plus one if
/// the pool held it at the start: no request's result is handed out twice,
/// and none leaves the pool without its result.
pub proof fn lemma_one_result_per_request(s: LoopView, inputs: Seq<LoopInput>, t: DeliveryToken)
    requires
        s.wf(),
    ensures
        s.results(inputs, t) + one_if(s.run(inputs).pool.holds(t)) == s.requests(inputs, t)
            + one_if(s.pool.holds(t)),
    decreases inputs.len(),
{
    if inputs.len() > 0 {
        lemma_one_result_per_request(s, inputs.drop_last(), t);
        lemma_settled_once(s, inputs.drop_last(), t);
        lemma_step_results(s.run(inputs.drop_last()), inputs.last(), t);
    }
}

impl LoopView {
    /// How many probes of `t` the inputs start.
    pub open spec fn starts(self, inputs: Seq<LoopInput>, t: DeliveryToken) -> nat
        decreases inputs.len(),
    {
        if inputs.len() == 0 {
            0
        } else {
            self.starts(inputs.drop_last(), t) + count_kind(
                self.run(inputs.drop_last()).step(inputs.last()).1,
                t,
                ActionKind::Start,
            )
        }
    }
}

/// One step starts a probe of `t` exactly when `t` stops waiting for a
/// worker, and `t` starts waiting only when a decoded message of `t` is
/// admitted while every worker is busy.
pub proof fn lemma_step_starts(s: LoopView, input: LoopInput, t: DeliveryToken)
    requires
        s.wf(),
    ensures
        count_kind(s.step(input).1, t, ActionKind::Start) + one_if(
            s.step(input).0.pool.is_waiting(t),
        ) == one_if(s.pool.is_waiting(t)) + match input {
            LoopInput::Inbound(u, Some(_)) => one_if(u == t && !s.holds(t)),
            _ => 0nat,
        },
{
    let ack = ActionView::Ack { token: t };
    lemma_count_small(ack, ack, t, ActionKind::Start);
    match input {
        LoopInput::Inbound(u, payload) => {
            if !s.holds(u) {
                match payload {
                    None => {
                        let a = ActionView::Ack { token: u };
                        lemma_count_small(a, a, t, ActionKind::Start);
                    },
                    Some(req) => {
                        let job = JobView { token: u, request: req };
                        lemma_submit_waiting(s.pool, job, t);
                        let start = ActionView::Start { token: u, url: req.url };
                        lemma_count_small(start, start, t, ActionKind::Start);
                    },
                }
            }
        },
        LoopInput::Completion(u, result, ts) => {
            if s.pool.is_running(u) {
                lemma_finish_wf(s.pool, u);
                lemma_finish_waiting(s.pool, u, t);
                let (p2, done, started) = s.pool.finish(u);
                let emit = ActionView::Emit {
                    token: u,
                    points: result_points(done->0.request, result, ts),
                };
                match started {
                    None => lemma_count_small(emit, emit, t, ActionKind::Start),
                    Some(next) => lemma_count_small(
                        emit,
                        ActionView::Start { token: next.token, url: next.request.url },
                        t,
                        ActionKind::Start,
                    ),
                }
            }
        },
        LoopInput::Emitted(u, ok) => {
            let a = ActionView::Ack { token: u };
            let r = ActionView::Reject { token: u };
            lemma_count_small(a, a, t, ActionKind::Start);
            lemma_count_small(r, r, t, ActionKind::Start);
        },
    }
}

/// Every request the loop takes on is probed exactly once. Over any run, for
/// every token, the probes started plus one if the token still waits for a
/// worker equal the decoded deliveries taken on plus one if it waited at the
/// start: no request is probed twice, and none is dropped from the queue.
pub proof fn lemma_one_start_per_request(s: LoopView, inputs: Seq<LoopInput>, t: DeliveryToken)
    requires
        s.wf(),
    ensures
        s.starts(inputs, t) + one_if(s.run(inputs).pool.is_waiting(t)) == s.requests(inputs, t)
            + one_if(s.pool.is_waiting(t)),
    decreases inputs.len(),
{
    if inputs.len() > 0 {
        lemma_one_start_per_request(s, inputs.drop_last(), t);
        lemma_settled_once(s, inputs.drop_last(), t);
        lemma_step_starts(s.run(inputs.drop_last()), inputs.last(), t);
    }
}

impl LoopView {
    /// How many rejects of `t` the inputs give rise to.
    pub open spec fn rejects(self, inputs: Seq<LoopInput>, t: DeliveryToken) -> nat
        decreases inputs.len(),
    {
        if inputs.len() == 0 {
            0
        } else {
            self.rejects(inputs.drop_last(), t) + count_kind(
                self.run(inputs.drop_last()).step(inputs.last()).1,
                t,
                ActionKind::Reject,
            )
        }
    }
}

/// Whether every write outcome among the inputs is a success.
pub open spec fn all_writes_succeed(inputs: Seq<LoopInput>) -> bool {
    forall|i: int| 0 <= i < inputs.len() ==> !(#[trigger] inputs[i] matches LoopInput::Emitted(_, false))
}

/// A step whose input is not a failed write rejects nothing.
pub proof fn lemma_step_no_reject(s: LoopView, input: LoopInput, t: DeliveryToken)
    requires
        !(input matches LoopInput::Emitted(_, false)),
    ensures
        count_kind(s.step(input).1, t, ActionKind::Reject) == 0,
{
    let ack = ActionView::Ack { token: t };
    lemma_count_small(ack, ack, t, ActionKind::Reject);
    match input {
        LoopInput::Inbound(u, payload) => {
            if !s.holds(u) {
                match payload {
                    None => {
                        let a = ActionView::Ack { token: u };
                        lemma_count_small(a, a, t, ActionKind::Reject);
                    },
                    Some(req) => {
                        let start = ActionView::Start { token: u, url: req.url };
                        lemma_count_small(start, start, t, ActionKind::Reject);
                    },
                }
            }
        },
        LoopInput::Completion(u, result, ts) => {
            let (p2, done, started) = s.pool.finish(u);
            if done is Some {
                let emit = ActionView::Emit {
                    token: u,
                    points: result_points(done->0.request, result, ts),
                };
                match started {
                    None => lemma_count_small(emit, emit, t, ActionKind::Reject),
                    Some(next) => lemma_count_small(
                        emit,
                        ActionView::Start { token: next.token, url: next.request.url },
                        t,
                        ActionKind::Reject,
                    ),
                }
            }
        },
        LoopInput::Emitted(u, ok) => {
            let a = ActionView::Ack { token: u };
            lemma_count_small(a, a, t, ActionKind::Reject);
        },
    }
}

/// A run in which every write of points succeeds rejects no message.
pub proof fn lemma_no_reject_when_writes_succeed(
    s: LoopView,
    inputs: Seq<LoopInput>,
    t: DeliveryToken,
)
    requires
        all_writes_succeed(inputs),
    ensures
        s.rejects(inputs, t) == 0,
    decreases inputs.len(),
{
    if inputs.len() > 0 {
        let prev = inputs.drop_last();
        assert forall|i: int| 0 <= i < prev.len() implies !(#[trigger] prev[i] matches LoopInput::Emitted(_, false)) by {
            assert(prev[i] == inputs[i]);
        }
        lemma_no_reject_when_writes_succeed(s, prev, t);
        assert(!(inputs[inputs.len() - 1] matches LoopInput::Emitted(_, false)));
        lemma_step_no_reject(s.run(prev), inputs.last(), t);
    }
}

/// A payload that did not decode is acknowledged and starts no probe: the
/// loop's state is unchanged and the only action is the ack. (A message whose
/// token the loop already holds is a duplicate and is left alone instead.)
pub proof fn lemma_malformed_acked(s: LoopView, t: DeliveryToken)
    requires
        s.wf(),
        !s.holds(t),
    ensures
        s.inbound(t, None) == (s, seq![ActionView::Ack { token: t }]),
{
}

/// A failed write never acknowledges: the token it concerns is rejected, so
/// that its message is delivered again, and nothing else is settled.
pub proof fn lemma_failed_emission_not_acked(s: LoopView, t: DeliveryToken)
    requires
        s.wf(),
    ensures
        forall|u: DeliveryToken| !s.emitted(t, false).1.contains(ActionView::Ack { token: u }),
        s.emitting.contains(t) ==> s.emitted(t, false).1 == seq![ActionView::Reject { token: t }],
        s.emitting.contains(t) ==> !s.emitted(t, false).0.holds(t),
{
    if s.emitting.contains(t) {
        let acts = s.emitted(t, false).1;
        assert(acts == seq![ActionView::Reject { token: t }]);
        assert forall|u: DeliveryToken| !acts.contains(ActionView::Ack { token: u }) by {
            if acts.contains(ActionView::Ack { token: u }) {
                let k = choose|k: int| 0 <= k < acts.len() && acts[k] == ActionView::Ack { token: u };
                assert(k == 0);
            }
        }
        lemma_step(s, LoopInput::Emitted(t, false), t);
        lemma_count_small(
            ActionView::Reject { token: t },
            ActionView::Reject { token: t },
            t,
            ActionKind::Settle,
        );
    }
}

/// The control loop: the only owner of acks and rejects. It hands probes to
/// a bounded pool and settles each message only after its points were
/// written, or at once when its payload did not decode.
pub struct ControlLoop {
    pool: WorkerPool,
    emitting: Vec<DeliveryToken>,
}

impl View for ControlLoop {
    type V = LoopView;

    closed spec fn view(&self) -> LoopView {
        LoopView { pool: self.pool@, emitting: self.emitting@ }
    }
}

fn position(v: &Vec<DeliveryToken>, t: DeliveryToken) -> (r: Option<usize>)
    ensures
        match r {
            Some(i) => i < v@.len() && v@[i as int] == t,
            None => !v@.contains(t),
        },
{
    let mut i: usize = 0;
    while i < v.len()
        invariant
            i <= v@.len(),
            forall|j: int| 0 <= j < i ==> v@[j] != t,
        decreases v@.len() - i,
    {
        if v[i] == t {
            return Some(i);
        }
        i = i + 1;
    }
    None
}

impl ControlLoop {
    /// A loop with an idle pool of `workers` workers.
    pub fn new(workers: usize) -> (r: ControlLoop)
        requires
            workers > 0,
        ensures
            r@.wf(),
            r@.pool == WorkerPoolView::empty(workers as nat),
            r@.emitting == Seq::<DeliveryToken>::empty(),
    {
        ControlLoop { pool: WorkerPool::new(workers), emitting: Vec::new() }
    }

    /// The number of probes in flight.
    pub fn in_flight(&self) -> (r: usize)
        ensures
            r == self@.pool.running.len(),
    {
        self.pool.in_flight()
    }

    /// Whether the loop still owes an ack or a reject for `t`.
    pub fn holds(&self, t: DeliveryToken) -> (r: bool)
        ensures
            r == self@.holds(t),
    {
        self.pool.holds(t) || position(&self.emitting, t).is_some()
    }

    /// Takes a message from the queue (see `LoopView::inbound`).
    pub fn on_inbound(&mut self, token: DeliveryToken, payload: Option<ProbeRequest>) -> (r: Vec<
        Action,
    >)
        requires
            old(self)@.wf(),
        ensures
            final(self)@.wf(),
            (final(self)@, actions_view(r@)) == old(self)@.inbound(token, payload_view(payload)),
    {
        proof {
            lemma_step(self@, LoopInput::Inbound(token, payload_view(payload)), token);
        }
        let mut acts: Vec<Action> = Vec::new();
        if self.holds(token) {
            assert(actions_view(acts@) =~= Seq::<ActionView>::empty());
            return acts;
        }
        match payload {
            None => {
                acts.push(Action::Ack { token });
                assert(actions_view(acts@) =~= seq![ActionView::Ack { token }]);
            },
            Some(req) => {
                let url = req.url.clone();
                let started = self.pool.submit(token, req);
                if started {
                    acts.push(Action::Start { token, url });
                    assert(actions_view(acts@) =~= seq![
                        ActionView::Start { token, url: url@ },
                    ]);
                } else {
                    assert(actions_view(acts@) =~= Seq::<ActionView>::empty());
                }
            },
        }
        acts
    }

    /// Takes the completion of a probe, stamping its points with `ts`
    /// (see `LoopView::completion`).
    pub fn on_completion_at(
        &mut self,
        token: DeliveryToken,
        result: DomainTestResult,
        ts: Timestamp,
    ) -> (r: Vec<Action>)
        requires
            old(self)@.wf(),
        ensures
            final(self)@.wf(),
            (final(self)@, actions_view(r@)) == old(self)@.completion(token, result@, ts),
    {
        proof {
            lemma_step(self@, LoopInput::Completion(token, result@, ts), token);
            lemma_finish_wf(self@.pool, token);
        }
        let ghost old_view = self@;
        let (done, started) = self.pool.finish(token);
        let mut acts: Vec<Action> = Vec::new();
        match done {
            None => {
                assert(actions_view(acts@) =~= Seq::<ActionView>::empty());
                acts
            },
            Some(job) => {
                let points = points_for_result(&job.request, &result, ts);
                let ghost emit = ActionView::Emit { token, points: points_view(points@) };
                acts.push(Action::Emit { token, points });
                self.emitting.push(token);
                match started {
                    None => {
                        assert(actions_view(acts@) =~= seq![emit]);
                    },
                    Some((u, url)) => {
                        acts.push(Action::Start { token: u, url });
                        assert(actions_view(acts@) =~= seq![
                            emit,
                            ActionView::Start { token: u, url: url@ },
                        ]);
                    },
                }
                assert(self@ == old_view.completion(token, result@, ts).0);
                acts
            },
        }
    }

    /// Takes the outcome of writing the points of `token`
    /// (see `LoopView::emitted`).
    pub fn on_emitted(&mut self, token: DeliveryToken, ok: bool) -> (r: Vec<Action>)
        requires
            old(self)@.wf(),
        ensures
            final(self)@.wf(),
            (final(self)@, actions_view(r@)) == old(self)@.emitted(token, ok),
    {
        proof {
            lemma_step(self@, LoopInput::Emitted(token, ok), token);
        }
        let mut acts: Vec<Action> = Vec::new();
        match position(&self.emitting, token) {
            None => {
                assert(actions_view(acts@) =~= Seq::<ActionView>::empty());
            },
            Some(i) => {
                proof {
                    let k = self@.emitting.index_of(token);
                    assert(self@.emitting[k] == token);
                    assert(k == i);
                }
                self.emitting.remove(i);
                if ok {
                    acts.push(Action::Ack { token });
                    assert(actions_view(acts@) =~= seq![ActionView::Ack { token }]);
                } else {
                    acts.push(Action::Reject { token });
                    assert(actions_view(acts@) =~= seq![ActionView::Reject { token }]);
                }
            },
        }
        acts
    }

    /// Handles one event; a completion's points are stamped with `ts`.
    pub fn handle_at(&mut self, event: PipelineEvent, ts: Timestamp) -> (r: Vec<Action>)
        requires
            old(self)@.wf(),
        ensures
            final(self)@.wf(),
            (final(self)@, actions_view(r@)) == old(self)@.step(event_input(event, ts)),
    {
        match event {
            PipelineEvent::Inbound { token, payload } => self.on_inbound(token, payload),
            PipelineEvent::Completion { token, result } => self.on_completion_at(token, result, ts),
        }
    }

    /// Handles one event; a completion's points are stamped with the current
    /// time.
    pub fn handle(&mut self, event: PipelineEvent) -> (r: Vec<Action>)
        requires
            old(self)@.wf(),
        ensures
            final(self)@.wf(),
            exists|ts: Timestamp|
                ts.micros < 1_000_000 && (final(self)@, actions_view(r@)) == old(self)@.step(
                    event_input(event, ts),
                ),
    {
        let ts = now();
        self.handle_at(event, ts)
    }
}

} // verus!
