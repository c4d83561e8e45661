//! Cluster-wide queries: the partial results that nodes report, how they
//! are merged, and the requests that wait for them until all known peers
//! have answered or the deadline has passed.

use crate::error::Error;
use crate::model::{lemma_listing_len, Name};
use crate::names::{lemma_pick_step, lemma_take_next, texts, NameMap, NameSet};
use vstd::prelude::*;

verus! {

/// What a cluster-wide query asks for.
#[derive(Clone, Copy, Debug, PartialEq, Eq, Structural)]
pub enum QueryKind {
    /// The number of connections per channel.
    ChannelsWithSocketCount,
    /// The number of connections.
    SocketsCount,
    /// The tenants that have a store.
    Namespaces,
}

/// `n` where it fits, the largest value where it does not.
pub open spec fn sat(n: int) -> usize {
    if n > usize::MAX {
        usize::MAX
    } else if n < 0 {
        0
    } else {
        n as usize
    }
}

/// The sum of two counts, capped at the largest value.
pub fn sat_add(a: usize, b: usize) -> (c: usize)
    ensures
        c == sat(a + b),
{
    if a > usize::MAX - b {
        usize::MAX
    } else {
        a + b
    }
}

/// `n` where it fits in 64 bits, the largest value where it does not.
pub open spec fn sat64(n: int) -> u64 {
    if n > u64::MAX {
        u64::MAX
    } else if n < 0 {
        0
    } else {
        n as u64
    }
}

/// The sum of two numbers, capped at the largest value.
pub fn sat_add64(a: u64, b: u64) -> (c: u64)
    ensures
        c == sat64(a + b),
{
    if a > u64::MAX - b {
        u64::MAX
    } else {
        a + b
    }
}

/// The count that `m` holds for `c`; zero where it holds none.
pub open spec fn count_in(m: Map<Name, usize>, c: Name) -> usize {
    if m.contains_key(c) {
        m[c]
    } else {
        0
    }
}

/// Counts merged by addition, name by name.
pub open spec fn merge_counts(a: Map<Name, usize>, b: Map<Name, usize>) -> Map<Name, usize> {
    Map::new(
        |c: Name| a.contains_key(c) || b.contains_key(c),
        |c: Name| sat(count_in(a, c) + count_in(b, c)),
    )
}

/// What one node reports, or what has been merged from several reports.
pub enum Partial {
    Counts(NameMap<usize>),
    Count(usize),
    Names(NameSet),
}

/// A partial result as the model sees it.
#[verifier::ext_equal]
pub enum PartialView {
    Counts(Map<Name, usize>),
    Count(usize),
    Names(Set<Name>),
}

/// The merge of two partial results: counts add up, sets unite. A report
/// of another kind than the result so far is left out.
pub open spec fn merge(a: PartialView, b: PartialView) -> PartialView {
    match (a, b) {
        (PartialView::Counts(x), PartialView::Counts(y)) => PartialView::Counts(merge_counts(x, y)),
        (PartialView::Count(x), PartialView::Count(y)) => PartialView::Count(sat(x + y)),
        (PartialView::Names(x), PartialView::Names(y)) => PartialView::Names(x.union(y)),
        _ => a,
    }
}

/// The result before any report.
pub open spec fn neutral(kind: QueryKind) -> PartialView {
    match kind {
        QueryKind::ChannelsWithSocketCount => PartialView::Counts(Map::empty()),
        QueryKind::SocketsCount => PartialView::Count(0),
        QueryKind::Namespaces => PartialView::Names(Set::empty()),
    }
}

/// Whether a partial result answers a query of `kind`.
pub open spec fn answers(p: PartialView, kind: QueryKind) -> bool {
    match (p, kind) {
        (PartialView::Counts(_), QueryKind::ChannelsWithSocketCount) => true,
        (PartialView::Count(_), QueryKind::SocketsCount) => true,
        (PartialView::Names(_), QueryKind::Namespaces) => true,
        _ => false,
    }
}

impl View for Partial {
    type V = PartialView;

    open spec fn view(&self) -> PartialView {
        match *self {
            Partial::Counts(m) => PartialView::Counts(m@),
            Partial::Count(n) => PartialView::Count(n),
            Partial::Names(s) => PartialView::Names(s@),
        }
    }
}

/// Adds the counts of `from` to those of `into`, name by name.
pub fn add_counts(into: &mut NameMap<usize>, from: &NameMap<usize>)
    requires
        old(into).wf(),
        from.wf(),
    ensures
        final(into).wf(),
        final(into)@ == merge_counts(old(into)@, from@),
{
    let ghost a = into@;
    let ghost all = from.key_seq();
    let n = from.len();
    let mut i: usize = 0;
    while i < n
        invariant
            i <= n,
            n == all.len(),
            all == from.key_seq(),
            from.wf(),
            into.wf(),
            forall|c: Name|
                #![trigger into@.contains_key(c)]
                #![trigger all.take(i as int).contains(c)]
                into@.contains_key(c) <==> (a.contains_key(c) || all.take(i as int).contains(c)),
            forall|c: Name| #[trigger]
                into@.contains_key(c) ==> into@[c] == (if all.take(i as int).contains(c) {
                    sat(count_in(a, c) + count_in(from@, c))
                } else {
                    a[c]
                }),
        decreases n - i,
    {
        let name = from.key_at(i);
        let more = *from.value_at(i);
        let ghost done = all.take(i as int);
        proof {
            lemma_take_next(all, i as int);
            assert(done.push(name@).contains(name@)) by {
                assert(done.push(name@)[i as int] == name@);
            }
            assert forall|c: Name| done.contains(c) implies done.push(name@).contains(c) by {
                let j = choose|j: int| 0 <= j < i && done[j] == c;
                assert(done.push(name@)[j] == c);
            }
            assert forall|c: Name| done.push(name@).contains(c) implies done.contains(c) || c
                == name@ by {
                let j = choose|j: int| 0 <= j <= i && done.push(name@)[j] == c;
                if j < i {
                    assert(done[j] == c);
                }
            }
        }
        let so_far = match into.get(name) {
            Some(count) => *count,
            None => 0,
        };
        into.insert(name.clone(), sat_add(so_far, more));
        i += 1;
    }
    proof {
        assert(all.take(i as int) =~= all);
        from.lemma_len();
        assert forall|c: Name| all.contains(c) == from@.contains_key(c) by {
            assert(all.to_set().contains(c) == all.contains(c));
        }
        assert(into@ =~= merge_counts(a, from@));
    }
}

/// Adds the names of `from` to those of `into`.
pub fn add_names(into: &mut NameSet, from: &NameSet)
    requires
        old(into).wf(),
    ensures
        final(into).wf(),
        final(into)@ == old(into)@.union(from@),
{
    let ghost a = into@;
    let ghost all = from.seq();
    let n = from.len();
    let mut i: usize = 0;
    while i < n
        invariant
            i <= n,
            n == all.len(),
            all == from.seq(),
            into.wf(),
            into@ == a.union(all.take(i as int).to_set()),
        decreases n - i,
    {
        let name = from.get(i);
        proof {
            assert(all.take(i + 1) =~= all.take(i as int).push(name@));
            all.take(i as int).lemma_push_to_set_commute(name@);
        }
        into.insert(name.clone());
        assert(into@ =~= a.union(all.take(i + 1).to_set()));
        i += 1;
    }
    proof {
        assert(all.take(i as int) =~= all);
    }
}

impl Partial {
    pub open spec fn wf(&self) -> bool {
        match *self {
            Partial::Counts(m) => m.wf(),
            Partial::Count(_) => true,
            Partial::Names(s) => s.wf(),
        }
    }

    /// The result before any report.
    pub fn neutral(kind: QueryKind) -> (p: Self)
        ensures
            p.wf(),
            p@ == neutral(kind),
    {
        match kind {
            QueryKind::ChannelsWithSocketCount => Partial::Counts(NameMap::new()),
            QueryKind::SocketsCount => Partial::Count(0),
            QueryKind::Namespaces => Partial::Names(NameSet::new()),
        }
    }

    /// Merges the report `other` into this result.
    pub fn absorb(&mut self, other: &Partial)
        requires
            old(self).wf(),
            other.wf(),
        ensures
            final(self).wf(),
            final(self)@ == merge(old(self)@, other@),
    {
        match self {
            Partial::Counts(into) => {
                match other {
                    Partial::Counts(from) => {
                        add_counts(into, from);
                    },
                    _ => {},
                }
            },
            Partial::Count(n) => {
                match other {
                    Partial::Count(more) => {
                        *n = sat_add(*n, *more);
                    },
                    _ => {},
                }
            },
            Partial::Names(into) => {
                match other {
                    Partial::Names(from) => {
                        add_names(into, from);
                    },
                    _ => {},
                }
            },
        }
    }
}

/// The counters of the aggregation protocol, for the metrics sink.
#[derive(Clone, Copy, Debug, PartialEq, Eq, Structural)]
pub struct AggregationMetrics {
    /// Queries that this node sent out.
    pub requests_sent: u64,
    /// Queries of any node that this node answered.
    pub requests_received: u64,
    /// Reports that were merged into a waiting request.
    pub responses_received: u64,
    /// Requests that got all their reports.
    pub resolved: u64,
    /// Requests that ran into their deadline.
    pub timed_out: u64,
}

/// A query that waits for the reports of the nodes.
pub struct PendingAggregateRequest {
    pub kind: QueryKind,
    pub app_id: Option<String>,
    /// How many nodes are expected to report.
    pub expected: usize,
    /// The nodes that have reported.
    pub responders: NameSet,
    /// The reports merged so far.
    pub merged: Partial,
    pub created_at: u64,
    pub deadline: u64,
}

#[verifier::ext_equal]
pub struct PendingView {
    pub kind: QueryKind,
    pub app: Option<Name>,
    pub expected: nat,
    pub responders: Set<Name>,
    pub merged: PartialView,
    pub created_at: u64,
    pub deadline: u64,
}

impl View for PendingAggregateRequest {
    type V = PendingView;

    open spec fn view(&self) -> PendingView {
        PendingView {
            kind: self.kind,
            app: match self.app_id {
                Some(a) => Some(a@),
                None => None,
            },
            expected: self.expected as nat,
            responders: self.responders@,
            merged: self.merged@,
            created_at: self.created_at,
            deadline: self.deadline,
        }
    }
}

impl PendingAggregateRequest {
    pub open spec fn wf(&self) -> bool {
        self.responders.wf() && self.merged.wf()
    }
}

/// The answer to a query: what was merged, and whether it is complete.
pub struct Resolution {
    pub request_id: String,
    pub kind: QueryKind,
    pub app_id: Option<String>,
    pub result: Partial,
    /// The deadline passed before every expected node had reported: the
    /// result is partial.
    pub degraded: bool,
    /// How many nodes reported.
    pub responses: usize,
    /// The time from the request to its resolution.
    pub elapsed_ms: u64,
}

#[verifier::ext_equal]
pub struct ResolutionView {
    pub request_id: Name,
    pub kind: QueryKind,
    pub app: Option<Name>,
    pub result: PartialView,
    pub degraded: bool,
    pub responses: nat,
    pub elapsed_ms: u64,
}

impl Resolution {
    /// What the answer is flagged with: a timeout where the deadline passed
    /// before every expected node had reported, nothing where the answer is
    /// complete. A flagged answer is still an answer.
    pub fn flag(&self) -> (e: Option<Error>)
        ensures
            e == (if self.degraded {
                Some(Error::AggregateTimeout)
            } else {
                None::<Error>
            }),
    {
        if self.degraded {
            Some(Error::AggregateTimeout)
        } else {
            None
        }
    }
}

impl View for Resolution {
    type V = ResolutionView;

    open spec fn view(&self) -> ResolutionView {
        ResolutionView {
            request_id: self.request_id@,
            kind: self.kind,
            app: match self.app_id {
                Some(a) => Some(a@),
                None => None,
            },
            result: self.result@,
            degraded: self.degraded,
            responses: self.responses as nat,
            elapsed_ms: self.elapsed_ms,
        }
    }
}

/// The requests that wait, and the counters.
#[verifier::ext_equal]
pub struct TableView {
    pub pending: Map<Name, PendingView>,
    pub metrics: AggregationMetrics,
}

/// A table without requests, all counters at zero.
pub open spec fn empty_table() -> TableView {
    TableView {
        pending: Map::empty(),
        metrics: AggregationMetrics {
            requests_sent: 0,
            requests_received: 0,
            responses_received: 0,
            resolved: 0,
            timed_out: 0,
        },
    }
}

/// A request as it is when it is sent out.
pub open spec fn fresh_request(
    kind: QueryKind,
    app: Option<Name>,
    expected: nat,
    now: u64,
    timeout_ms: u64,
) -> PendingView {
    PendingView {
        kind,
        app,
        expected,
        responders: Set::empty(),
        merged: neutral(kind),
        created_at: now,
        deadline: sat64(now + timeout_ms),
    }
}

/// The table after request `id` has been sent out.
pub open spec fn begun(
    t: TableView,
    id: Name,
    kind: QueryKind,
    app: Option<Name>,
    expected: nat,
    now: u64,
    timeout_ms: u64,
) -> TableView {
    TableView {
        pending: t.pending.insert(id, fresh_request(kind, app, expected, now, timeout_ms)),
        metrics: AggregationMetrics {
            requests_sent: sat64(t.metrics.requests_sent + 1),
            ..t.metrics
        },
    }
}

/// The answer that request `id` resolves with at time `now`.
pub open spec fn resolution_of(id: Name, p: PendingView, degraded: bool, now: u64) -> ResolutionView {
    ResolutionView {
        request_id: id,
        kind: p.kind,
        app: p.app,
        result: p.merged,
        degraded,
        responses: p.responders.len(),
        elapsed_ms: sat64(now - p.created_at),
    }
}

/// Request `p` after node `responder` has reported `partial`.
pub open spec fn with_report(p: PendingView, responder: Name, partial: PartialView) -> PendingView {
    PendingView {
        responders: p.responders.insert(responder),
        merged: merge(p.merged, partial),
        ..p
    }
}

/// Whether a report of `responder` for request `id` is taken: the request
/// waits, its deadline has not passed, the node has not reported before,
/// and the report is of the kind asked for.
pub open spec fn report_taken(
    t: TableView,
    id: Name,
    responder: Name,
    partial: PartialView,
    now: u64,
) -> bool {
    &&& t.pending.contains_key(id)
    &&& now < t.pending[id].deadline
    &&& !t.pending[id].responders.contains(responder)
    &&& answers(partial, t.pending[id].kind)
}

/// The answer that a report at time `now` brings about, if any: the
/// partial answer of a request whose deadline has passed, or the full
/// answer when the last expected node has reported.
pub open spec fn report_resolves(
    t: TableView,
    id: Name,
    responder: Name,
    partial: PartialView,
    now: u64,
) -> Option<ResolutionView> {
    if !t.pending.contains_key(id) {
        None
    } else if now >= t.pending[id].deadline {
        Some(resolution_of(id, t.pending[id], true, now))
    } else if !report_taken(t, id, responder, partial, now) {
        None
    } else {
        let q = with_report(t.pending[id], responder, partial);
        if q.responders.len() >= q.expected {
            Some(resolution_of(id, q, false, now))
        } else {
            None
        }
    }
}

/// The table after a report at time `now`.
pub open spec fn reported(
    t: TableView,
    id: Name,
    responder: Name,
    partial: PartialView,
    now: u64,
) -> TableView {
    if !t.pending.contains_key(id) {
        t
    } else if now >= t.pending[id].deadline {
        TableView {
            pending: t.pending.remove(id),
            metrics: AggregationMetrics { timed_out: sat64(t.metrics.timed_out + 1), ..t.metrics },
        }
    } else if !report_taken(t, id, responder, partial, now) {
        t
    } else {
        let q = with_report(t.pending[id], responder, partial);
        if q.responders.len() >= q.expected {
            TableView {
                pending: t.pending.remove(id),
                metrics: AggregationMetrics {
                    responses_received: sat64(t.metrics.responses_received + 1),
                    resolved: sat64(t.metrics.resolved + 1),
                    ..t.metrics
                },
            }
        } else {
            TableView {
                pending: t.pending.insert(id, q),
                metrics: AggregationMetrics {
                    responses_received: sat64(t.metrics.responses_received + 1),
                    ..t.metrics
                },
            }
        }
    }
}

/// Whether request `id` waits and its deadline has passed at `now`.
pub open spec fn overdue(t: TableView, now: u64, id: Name) -> bool {
    t.pending.contains_key(id) && t.pending[id].deadline <= now
}

/// The requests whose deadline has passed at `now`.
pub open spec fn overdue_set(t: TableView, now: u64) -> Set<Name> {
    Set::new(|id: Name| overdue(t, now, id))
}

/// The table after the sweep at time `now`: the overdue requests are gone,
/// each counted once as timed out.
pub open spec fn swept(t: TableView, now: u64) -> TableView {
    TableView {
        pending: t.pending.remove_keys(overdue_set(t, now)),
        metrics: AggregationMetrics {
            timed_out: sat64(t.metrics.timed_out + overdue_set(t, now).len()),
            ..t.metrics
        },
    }
}

/// The answers of a sequence, in order, as the model sees them.
pub open spec fn resolutions_view(v: Seq<Resolution>) -> Seq<ResolutionView> {
    v.map_values(|r: Resolution| r@)
}

/// The request ids of a sequence of answers, in order.
pub open spec fn resolved_ids(v: Seq<Resolution>) -> Seq<Name> {
    v.map_values(|r: Resolution| r.request_id@)
}

/// The requests of this node that wait for reports.
pub struct AggregateTable {
    pending: NameMap<PendingAggregateRequest>,
    metrics: AggregationMetrics,
}

impl View for AggregateTable {
    type V = TableView;

    closed spec fn view(&self) -> TableView {
        TableView {
            pending: self.pending@.map_values(|p: PendingAggregateRequest| p@),
            metrics: self.metrics,
        }
    }
}

impl AggregateTable {
    pub closed spec fn wf(&self) -> bool {
        &&& self.pending.wf()
        &&& forall|id: Name| self.pending@.contains_key(id) ==> (#[trigger] self.pending@[id]).wf()
    }

    /// A table without requests, all counters at zero.
    pub fn new() -> (t: Self)
        ensures
            t.wf(),
            t@ == empty_table(),
    {
        let t = AggregateTable {
            pending: NameMap::new(),
            metrics: AggregationMetrics {
                requests_sent: 0,
                requests_received: 0,
                responses_received: 0,
                resolved: 0,
                timed_out: 0,
            },
        };
        assert(t@.pending =~= Map::<Name, PendingView>::empty());
        t
    }

    pub fn metrics(&self) -> (m: AggregationMetrics)
        ensures
            m == self@.metrics,
    {
        self.metrics
    }

    /// Whether request `id` waits.
    pub fn is_pending(&self, id: &String) -> (b: bool)
        ensures
            b == self@.pending.contains_key(id@),
    {
        self.pending.contains_key(id)
    }

    /// How many requests wait.
    pub fn pending_count(&self) -> (n: usize)
        requires
            self.wf(),
        ensures
            n == self@.pending.dom().len(),
    {
        assert(self@.pending.dom() =~= self.pending@.dom());
        self.pending.len()
    }

    /// Notes that this node answered a query.
    pub fn note_request_received(&mut self)
        requires
            old(self).wf(),
        ensures
            final(self).wf(),
            final(self)@ == (TableView {
                metrics: AggregationMetrics {
                    requests_received: sat64(old(self)@.metrics.requests_received + 1),
                    ..old(self)@.metrics
                },
                ..old(self)@
            }),
    {
        self.metrics.requests_received = sat_add64(self.metrics.requests_received, 1);
    }

    /// Files a query under the fresh id `id` as sent at `now`, to wait for
    /// `expected` reports for at most `timeout_ms`. An id that is in use is
    /// refused.
    pub fn begin(
        &mut self,
        id: String,
        kind: QueryKind,
        app_id: Option<String>,
        expected: usize,
        now: u64,
        timeout_ms: u64,
    ) -> (r: Result<(), Error>)
        requires
            old(self).wf(),
        ensures
            final(self).wf(),
            r is Ok <==> !old(self)@.pending.contains_key(id@),
            r is Err ==> r == Err::<(), Error>(Error::AlreadyExists) && final(self)@ == old(self)@,
            r is Ok ==> final(self)@ == begun(
                old(self)@,
                id@,
                kind,
                crate::namespace::text_of(app_id),
                expected as nat,
                now,
                timeout_ms,
            ),
    {
        if self.pending.contains_key(&id) {
            return Err(Error::AlreadyExists);
        }
        let ghost t = self@;
        let request = PendingAggregateRequest {
            kind,
            app_id,
            expected,
            responders: NameSet::new(),
            merged: Partial::neutral(kind),
            created_at: now,
            deadline: sat_add64(now, timeout_ms),
        };
        self.pending.insert(id, request);
        self.metrics.requests_sent = sat_add64(self.metrics.requests_sent, 1);
        proof {
            let x = begun(
                t,
                id@,
                kind,
                crate::namespace::text_of(app_id),
                expected as nat,
                now,
                timeout_ms,
            );
            assert(self@.pending =~= x.pending);
        }
        Ok(())
    }

    /// Takes the report `partial` of node `responder` for request `id` at
    /// time `now`. A report for a request that does not wait, a second
    /// report of one node, and a report of another kind than asked for are
    /// left out. A request whose deadline has passed resolves with what it
    /// has, flagged as partial; a request that has all its reports resolves
    /// in full. A resolved request no longer waits.
    pub fn record(&mut self, id: &String, responder: &String, partial: &Partial, now: u64) -> (r:
        Option<Resolution>)
        requires
            old(self).wf(),
            partial.wf(),
        ensures
            final(self).wf(),
            final(self)@ == reported(old(self)@, id@, responder@, partial@, now),
            match r {
                Some(res) => report_resolves(old(self)@, id@, responder@, partial@, now) == Some(
                    res@,
                ),
                None => report_resolves(old(self)@, id@, responder@, partial@, now) is None,
            },
            r is Some ==> !final(self)@.pending.contains_key(id@),
    {
        let ghost t = self@;
        let mut late = false;
        let mut taken = false;
        match self.pending.get(id) {
            None => {
                return None;
            },
            Some(p) => {
                if now >= p.deadline {
                    late = true;
                } else {
                    taken = !p.responders.contains(responder) && partial.is_of(p.kind);
                }
            },
        }
        if late {
            match self.pending.remove(id) {
                Some(p) => {
                    self.metrics.timed_out = sat_add64(self.metrics.timed_out, 1);
                    assert(self@.pending =~= t.pending.remove(id@));
                    return Some(
                        Resolution {
                            request_id: id.clone(),
                            kind: p.kind,
                            app_id: p.app_id,
                            responses: p.responders.len(),
                            result: p.merged,
                            degraded: true,
                            elapsed_ms: elapsed(p.created_at, now),
                        },
                    );
                },
                None => {
                    return None;
                },
            }
        }
        if !taken {
            return None;
        }
        let mut complete = false;
        match self.pending.get_mut(id) {
            Some(p) => {
                p.responders.insert(responder.clone());
                p.merged.absorb(partial);
                complete = p.responders.len() >= p.expected;
            },
            None => {},
        }
        self.metrics.responses_received = sat_add64(self.metrics.responses_received, 1);
        let ghost q = with_report(t.pending[id@], responder@, partial@);
        assert(self@.pending =~= t.pending.insert(id@, q));
        if complete {
            match self.pending.remove(id) {
                Some(p) => {
                    self.metrics.resolved = sat_add64(self.metrics.resolved, 1);
                    assert(self@.pending =~= t.pending.remove(id@));
                    return Some(
                        Resolution {
                            request_id: id.clone(),
                            kind: p.kind,
                            app_id: p.app_id,
                            responses: p.responders.len(),
                            result: p.merged,
                            degraded: false,
                            elapsed_ms: elapsed(p.created_at, now),
                        },
                    );
                },
                None => {
                    return None;
                },
            }
        }
        None
    }

    /// Sweeps the table at time `now`: every request whose deadline has
    /// passed resolves with what it has, flagged as partial, and no longer
    /// waits. Each such request is answered once and counted once as timed
    /// out.
    pub fn expire(&mut self, now: u64) -> (out: Vec<Resolution>)
        requires
            old(self).wf(),
        ensures
            final(self).wf(),
            final(self)@ == swept(old(self)@, now),
            out@.len() == overdue_set(old(self)@, now).len(),
            resolved_ids(out@).no_duplicates(),
            forall|id: Name|
                #![trigger resolved_ids(out@).contains(id)]
                #![trigger overdue(old(self)@, now, id)]
                resolved_ids(out@).contains(id) <==> overdue(old(self)@, now, id),
            forall|i: int|
                0 <= i < out@.len() ==> old(self)@.pending.contains_key(
                    (#[trigger] out@[i]).request_id@,
                ) && out@[i]@ == resolution_of(
                    out@[i].request_id@,
                    old(self)@.pending[out@[i].request_id@],
                    true,
                    now,
                ),
    {
        let ghost t = self@;
        let mut out: Vec<Resolution> = Vec::new();
        let ids = self.pending.keys();
        let ghost all = texts(ids@);
        let mut i: usize = 0;
        assert(resolved_ids(out@) =~= Seq::<Name>::empty());
        assert(self@.pending =~= t.pending.remove_keys(
            Set::new(|id: Name| all.take(0).contains(id) && overdue(t, now, id)),
        ));
        while i < ids.len()
            invariant
                i <= ids.len(),
                all == texts(ids@),
                all.no_duplicates(),
                forall|id: Name|
                    #![trigger all.contains(id)]
                    all.contains(id) <==> t.pending.contains_key(id),
                self.wf(),
                self@.pending == t.pending.remove_keys(
                    Set::new(|id: Name| all.take(i as int).contains(id) && overdue(t, now, id)),
                ),
                self@.metrics == (AggregationMetrics {
                    timed_out: sat64(t.metrics.timed_out + out@.len()),
                    ..t.metrics
                }),
                resolved_ids(out@).no_duplicates(),
                forall|id: Name|
                    #![trigger resolved_ids(out@).contains(id)]
                    #![trigger all.take(i as int).contains(id)]
                    resolved_ids(out@).contains(id) <==> (all.take(i as int).contains(id)
                        && overdue(t, now, id)),
                forall|j: int|
                    0 <= j < out@.len() ==> t.pending.contains_key(
                        (#[trigger] out@[j]).request_id@,
                    ) && out@[j]@ == resolution_of(
                        out@[j].request_id@,
                        t.pending[out@[j].request_id@],
                        true,
                        now,
                    ),
            decreases ids.len() - i,
        {
            let id = &ids[i];
            let ghost done = all.take(i as int);
            let ghost listed = resolved_ids(out@);
            let ghost before = self@;
            proof {
                assert(id@ == all[i as int]);
                lemma_take_next(all, i as int);
                lemma_pick_step(done, listed, id@, |x: Name| overdue(t, now, x));
                assert(all.contains(id@));
                assert(before.pending.contains_key(id@));
                assert(before.pending[id@] == t.pending[id@]);
            }
            let due = match self.pending.get(id) {
                Some(p) => p.deadline <= now,
                None => false,
            };
            assert(due == overdue(t, now, id@));
            if due {
                match self.pending.remove(id) {
                    Some(p) => {
                        self.metrics.timed_out = sat_add64(self.metrics.timed_out, 1);
                        out.push(
                            Resolution {
                                request_id: id.clone(),
                                kind: p.kind,
                                app_id: p.app_id,
                                responses: p.responders.len(),
                                result: p.merged,
                                degraded: true,
                                elapsed_ms: elapsed(p.created_at, now),
                            },
                        );
                        assert(resolved_ids(out@) =~= listed.push(id@));
                    },
                    None => {},
                }
            }
            proof {
                let gone = Set::new(|x: Name| done.contains(x) && overdue(t, now, x));
                let gone2 = Set::new(|x: Name| all.take(i + 1).contains(x) && overdue(t, now, x));
                assert forall|x: Name| all.take(i + 1).contains(x) <==> (done.contains(x) || x
                    == id@) by {
                    if done.contains(x) {
                        let j = choose|j: int| 0 <= j < done.len() && done[j] == x;
                        assert(done.push(id@)[j] == x);
                    }
                    if x == id@ {
                        assert(done.push(id@)[i as int] == x);
                    }
                }
                if due {
                    assert(gone2 =~= gone.insert(id@));
                    assert(self@.pending =~= before.pending.remove(id@));
                } else {
                    assert(gone2 =~= gone);
                }
                assert(self@.pending =~= t.pending.remove_keys(gone2));
            }
            i += 1;
        }
        proof {
            assert(all.take(i as int) =~= all);
            assert(overdue_set(t, now) =~= Set::new(
                |id: Name| all.contains(id) && overdue(t, now, id),
            ));
            lemma_listing_len(resolved_ids(out@), overdue_set(t, now));
        }
        out
    }
}

/// The time from `since` to `now`; zero where `now` comes first.
pub fn elapsed(since: u64, now: u64) -> (ms: u64)
    ensures
        ms == sat64(now - since),
{
    if now >= since {
        now - since
    } else {
        0
    }
}

impl Partial {
    /// Whether the report answers a query of `kind`.
    pub fn is_of(&self, kind: QueryKind) -> (b: bool)
        ensures
            b == answers(self@, kind),
    {
        match self {
            Partial::Counts(_) => match kind {
                QueryKind::ChannelsWithSocketCount => true,
                _ => false,
            },
            Partial::Count(_) => match kind {
                QueryKind::SocketsCount => true,
                _ => false,
            },
            Partial::Names(_) => match kind {
                QueryKind::Namespaces => true,
                _ => false,
            },
        }
    }
}

/// A request resolves once: when a report has brought about its answer,
/// the request no longer waits, no later report resolves it again, and no
/// sweep finds it.
pub proof fn theorem_report_resolves_once(
    t: TableView,
    id: Name,
    responder: Name,
    partial: PartialView,
    now: u64,
    later_responder: Name,
    later_partial: PartialView,
    later: u64,
)
    requires
        report_resolves(t, id, responder, partial, now) is Some,
    ensures
        !reported(t, id, responder, partial, now).pending.contains_key(id),
        report_resolves(
            reported(t, id, responder, partial, now),
            id,
            later_responder,
            later_partial,
            later,
        ) is None,
        !overdue(reported(t, id, responder, partial, now), later, id),
{
}

/// A request that the sweep has answered no longer waits: no report
/// resolves it again, and no later sweep finds it. The sweep counts each
/// request that it answers once.
pub proof fn theorem_sweep_resolves_once(
    t: TableView,
    id: Name,
    now: u64,
    later_responder: Name,
    later_partial: PartialView,
    later: u64,
)
    requires
        overdue(t, now, id),
        t.pending.dom().finite(),
    ensures
        !swept(t, now).pending.contains_key(id),
        report_resolves(swept(t, now), id, later_responder, later_partial, later) is None,
        !overdue(swept(t, now), later, id),
        later >= now ==> overdue_set(swept(t, now), later).subset_of(overdue_set(t, later)),
        swept(swept(t, now), now) == swept(t, now),
{
    let u = swept(t, now);
    assert(overdue_set(u, now) =~= Set::<Name>::empty());
    assert(u.pending.remove_keys(overdue_set(u, now)) =~= u.pending);
}

/// A request that does not wait is touched by no report.
pub proof fn theorem_unknown_request_ignored(
    t: TableView,
    id: Name,
    responder: Name,
    partial: PartialView,
    now: u64,
)
    requires
        !t.pending.contains_key(id),
    ensures
        reported(t, id, responder, partial, now) == t,
        report_resolves(t, id, responder, partial, now) is None,
{
}

/// The order in which two reports arrive does not change what is merged.
pub proof fn theorem_merge_order_irrelevant(a: PartialView, b: PartialView, c: PartialView)
    ensures
        merge(merge(a, b), c) == merge(merge(a, c), b),
{
    match (a, b, c) {
        (PartialView::Counts(x), PartialView::Counts(y), PartialView::Counts(z)) => {
            assert(merge_counts(merge_counts(x, y), z) =~= merge_counts(merge_counts(x, z), y));
        },
        (PartialView::Names(x), PartialView::Names(y), PartialView::Names(z)) => {
            assert(x.union(y).union(z) =~= x.union(z).union(y));
        },
        _ => {},
    }
}

/// Merging adds up: a channel counted by two nodes has the sum of both
/// counts, one counted by a single node has that node's count.
pub proof fn theorem_merge_adds(a: Map<Name, usize>, b: Map<Name, usize>, c: Name)
    ensures
        count_in(merge_counts(a, b), c) == sat(count_in(a, c) + count_in(b, c)),
        merge_counts(a, b).contains_key(c) <==> (a.contains_key(c) || b.contains_key(c)),
{
}

} // verus!
