//! A scan session: the decisions of one sweep over a subnet.
//!
//! The session does no I/O. Its driver asks it which probe to launch next
//! (`next_probe`), hands back what each probe found (`record`), and
//! delivers the events that `record` returns, in that order, to the
//! consumer. The session decides when completion is reached and keeps the
//! event stream well formed: one `Result` per target, then exactly one
//! `Complete`, and nothing after it.
use vstd::prelude::*;
use vstd::set_lib::{lemma_int_range, lemma_len_subset, lemma_subset_equality, set_int_range};

use crate::range::{compute_range, range_of};
use crate::scanner::{outcome, probe_outcome, ScanMessage, ScanMessageView};

verus! {

/// The views of a list of events.
pub open spec fn views(msgs: Seq<ScanMessage>) -> Seq<ScanMessageView> {
    msgs.map_values(|m: ScanMessage| m@)
}

/// A probe that the driver is to launch.
#[derive(Debug, Clone, Copy, PartialEq, Eq)]
pub struct ProbeRequest {
    /// Position of the target in the session's address range.
    pub index: usize,
    /// Address to probe.
    pub address: u32,
    /// Sequence number that the echo request carries, so that replies
    /// to concurrent probes are told apart.
    pub sequence: u16,
}

/// The abstract state of a scan session.
pub struct SessionView {
    /// Addresses to probe, in range order.
    pub targets: Seq<u32>,
    /// Ports whose connection attempts are merged into each outcome.
    pub ports: Seq<u16>,
    /// Largest number of probes in flight at once; zero for no limit.
    pub limit: nat,
    /// Number of targets handed out for probing, in range order.
    pub dispatched: nat,
    /// Indices of the targets whose probe has resolved.
    pub resolved: Set<int>,
    pub cancelled: bool,
    pub completed: bool,
    /// Every event delivered so far, in delivery order.
    pub events: Seq<ScanMessageView>,
    /// For each `Result` event, the index of the target it reports.
    pub order: Seq<int>,
}

impl SessionView {
    pub open spec fn size(self) -> nat {
        self.targets.len()
    }

    /// Probes launched whose outcome has not come back.
    pub open spec fn in_flight(self) -> int {
        self.dispatched - self.resolved.len()
    }

    /// Nothing more will be delivered and no probe is outstanding that
    /// the session waits for.
    pub open spec fn is_closed(self) -> bool {
        self.completed || (self.cancelled && self.in_flight() == 0)
    }

    /// Whether another probe may be launched now.
    pub open spec fn can_dispatch(self) -> bool {
        &&& !self.cancelled
        &&& !self.completed
        &&& self.dispatched < self.size()
        &&& (self.limit == 0 || self.in_flight() < self.limit)
    }

    /// Event `k` is the outcome of probing target `order[k]`.
    pub open spec fn reports(self, k: int) -> bool {
        &&& 0 <= self.order[k] < self.size()
        &&& self.resolved.contains(self.order[k])
        &&& self.events[k] matches ScanMessageView::Result(o)
        &&& o.ip == self.targets[self.order[k]]
        &&& o.wf()
    }

    /// Some event delivered is the `Result` of target `t`.
    pub open spec fn reported(self, t: int) -> bool {
        exists|k: int|
            0 <= k < self.order.len() && self.order[k] == t && (self.events[k] matches ScanMessageView::Result(
                o,
            ) && o.ip == self.targets[t])
    }

    /// What holds of every session, at every step.
    pub open spec fn consistent(self) -> bool {
        &&& self.size() >= 1
        &&& self.dispatched <= self.size()
        &&& self.resolved.finite()
        &&& forall|t: int| #[trigger] self.resolved.contains(t) ==> 0 <= t < self.dispatched
        &&& !(self.completed && self.cancelled)
        &&& self.events.len() == self.order.len() + if self.completed {
            1int
        } else {
            0int
        }
        &&& forall|k: int| 0 <= k < self.order.len() ==> #[trigger] self.reports(k)
        &&& forall|k1: int, k2: int|
            0 <= k1 < k2 < self.order.len() ==> #[trigger] self.order[k1] != #[trigger] self.order[k2]
        &&& !self.cancelled ==> self.order.len() == self.resolved.len()
        &&& !self.cancelled ==> forall|t: int| #[trigger]
            self.resolved.contains(t) ==> exists|k: int| 0 <= k < self.order.len() && self.order[k] == t
        &&& self.completed ==> self.events.last() is Complete && self.resolved.len() == self.size()
        &&& (!self.cancelled && self.resolved.len() == self.size()) ==> self.completed
    }

    /// The events that delivering the outcome of target `index` gives: its
    /// `Result`, followed by `Complete` when it was the last one missing.
    pub open spec fn delivered(self, index: int, reply_ms: Option<u128>, open: Seq<bool>) -> Seq<
        ScanMessageView,
    > {
        let res = ScanMessageView::Result(outcome(self.targets[index], reply_ms, self.ports, open));
        if self.resolved.len() + 1 == self.size() {
            seq![res, ScanMessageView::Complete]
        } else {
            seq![res]
        }
    }
}

/// With as many resolved targets as there are targets, every target has resolved.
proof fn lemma_all_resolved(s: SessionView)
    requires
        s.consistent(),
        s.resolved.len() == s.size(),
    ensures
        forall|t: int| 0 <= t < s.size() ==> #[trigger] s.resolved.contains(t),
{
    let all = set_int_range(0, s.size() as int);
    lemma_int_range(0, s.size() as int);
    assert(s.resolved.subset_of(all));
    lemma_subset_equality(s.resolved, all);
}

/// A set of indices below `n` has at most `n` members.
proof fn lemma_indices_bound(s: Set<int>, n: nat)
    requires
        s.finite(),
        forall|t: int| #[trigger] s.contains(t) ==> 0 <= t < n,
    ensures
        s.len() <= n,
{
    let all = set_int_range(0, n as int);
    lemma_int_range(0, n as int);
    assert(s.subset_of(all));
    lemma_len_subset(s, all);
}

/// The resolved targets are among the dispatched ones.
proof fn lemma_resolved_bound(s: SessionView)
    requires
        s.consistent(),
    ensures
        s.resolved.len() <= s.dispatched,
{
    lemma_indices_bound(s.resolved, s.dispatched);
}

/// Consistency survives a change of the counters that no clause about
/// the events reads.
proof fn lemma_consistent_frame(o: SessionView, n: SessionView)
    requires
        o.consistent(),
        n.targets == o.targets,
        n.resolved == o.resolved,
        n.completed == o.completed,
        n.events == o.events,
        n.order == o.order,
        o.dispatched <= n.dispatched <= n.size(),
        n.cancelled ==> !n.completed,
        o.cancelled ==> n.cancelled,
    ensures
        n.consistent(),
{
    assert forall|k: int| 0 <= k < n.order.len() implies #[trigger] n.reports(k) by {
        assert(o.reports(k));
    }
    assert forall|t: int| #[trigger] n.resolved.contains(t) implies 0 <= t < n.dispatched by {
        assert(o.resolved.contains(t));
    }
    if !n.cancelled {
        assert forall|t: int| #[trigger] n.resolved.contains(t) implies exists|k: int|
            0 <= k < n.order.len() && n.order[k] == t by {
            assert(o.resolved.contains(t));
        }
    }
}

/// A session that has completed has delivered exactly one `Result` for
/// each of its targets, in whatever order the probes resolved, followed by
/// a single `Complete`.
pub proof fn lemma_complete_reports_each_target(s: SessionView)
    requires
        s.consistent(),
        s.completed,
    ensures
        s.events.len() == s.size() + 1,
        forall|k: int| 0 <= k < s.size() ==> #[trigger] s.events[k] is Result,
        s.events[s.size() as int] is Complete,
        forall|t: int| 0 <= t < s.size() ==> #[trigger] s.reported(t),
        forall|k1: int, k2: int|
            0 <= k1 < k2 < s.size() ==> #[trigger] s.order[k1] != #[trigger] s.order[k2],
{
    lemma_all_resolved(s);
    assert forall|k: int| 0 <= k < s.size() implies #[trigger] s.events[k] is Result by {
        assert(s.reports(k));
    }
    assert forall|t: int| 0 <= t < s.size() implies #[trigger] s.reported(t) by {
        assert(s.resolved.contains(t));
        let k = choose|k: int| 0 <= k < s.order.len() && s.order[k] == t;
        assert(s.reports(k));
    }
}

/// `Complete` can only be the last event delivered; once a session has
/// completed, it hands out no probe and every outcome it is given is
/// already taken, so nothing is delivered after it.
pub proof fn lemma_nothing_after_complete(s: SessionView)
    requires
        s.consistent(),
    ensures
        forall|k: int|
            0 <= k < s.events.len() && #[trigger] s.events[k] is Complete ==> k == s.events.len() - 1
                && s.completed,
        s.completed ==> !s.can_dispatch(),
        s.completed ==> forall|i: int| 0 <= i < s.size() ==> #[trigger] s.resolved.contains(i),
{
    assert forall|k: int| 0 <= k < s.events.len() && #[trigger] s.events[k] is Complete implies k
        == s.events.len() - 1 && s.completed by {
        if k < s.order.len() {
            assert(s.reports(k));
        }
    }
    if s.completed {
        lemma_all_resolved(s);
    }
}

/// The outcome of a probe that never replied is a dead host with no ports;
/// it counts toward completion like any other, so it holds back neither
/// the other results nor `Complete`.
pub proof fn lemma_silent_probe_resolves(s: SessionView, index: int, open: Seq<bool>)
    requires
        s.consistent(),
        !s.cancelled,
        0 <= index < s.dispatched,
        !s.resolved.contains(index),
    ensures
        s.delivered(index, None, open)[0] matches ScanMessageView::Result(o) && !o.alive
            && o.ports.len() == 0 && o.ip == s.targets[index],
        s.resolved.insert(index).len() == s.resolved.len() + 1,
        s.resolved.len() + 1 == s.size() ==> s.delivered(index, None, open).len() == 2
            && s.delivered(index, None, open)[1] is Complete,
{
}

/// A cancelled session never delivers `Complete` and hands out no further
/// probe; it is closed as soon as the probes still in flight have come
/// back, each within its own timeout.
pub proof fn lemma_cancelled_session_closes(s: SessionView)
    requires
        s.consistent(),
        s.cancelled,
    ensures
        !s.completed,
        !s.can_dispatch(),
        forall|k: int| 0 <= k < s.events.len() ==> #[trigger] s.events[k] is Result,
        s.in_flight() >= 0,
        s.in_flight() == 0 ==> s.is_closed(),
{
    lemma_resolved_bound(s);
    assert forall|k: int| 0 <= k < s.events.len() implies #[trigger] s.events[k] is Result by {
        assert(s.reports(k));
    }
}

/// A session never waits on nothing: until it is closed, either another
/// probe may be launched or some probe is still in flight.
pub proof fn lemma_never_stuck(s: SessionView)
    requires
        s.consistent(),
    ensures
        s.is_closed() || s.can_dispatch() || s.in_flight() > 0,
{
    lemma_resolved_bound(s);
    if !s.cancelled && !s.completed && s.dispatched == s.size() {
        assert(s.resolved.len() != s.size());
    }
}

/// State of one sweep over an address range.
pub struct ScanSession {
    targets: Vec<u32>,
    ports: Vec<u16>,
    limit: usize,
    dispatched: usize,
    done: Vec<bool>,
    resolved_count: usize,
    cancelled: bool,
    completed: bool,
    resolved: Ghost<Set<int>>,
    events: Ghost<Seq<ScanMessageView>>,
    order: Ghost<Seq<int>>,
}

impl View for ScanSession {
    type V = SessionView;

    closed spec fn view(&self) -> SessionView {
        SessionView {
            targets: self.targets@,
            ports: self.ports@,
            limit: self.limit as nat,
            dispatched: self.dispatched as nat,
            resolved: self.resolved@,
            cancelled: self.cancelled,
            completed: self.completed,
            events: self.events@,
            order: self.order@,
        }
    }
}

impl ScanSession {
    /// The fields agree with the view, and the view is consistent.
    pub closed spec fn wf(&self) -> bool {
        &&& self@.consistent()
        &&& self.done@.len() == self.targets@.len()
        &&& forall|i: int| 0 <= i < self.done@.len() ==> (#[trigger] self.done@[i] <==> self.resolved@.contains(i))
        &&& self.resolved_count == self.resolved@.len()
    }

    /// Every session's view is consistent, so the laws above apply to it.
    pub proof fn lemma_consistent(&self)
        requires
            self.wf(),
        ensures
            self@.consistent(),
    {
    }

    /// A session over the subnet of `base` at `prefix_len` (clamped to
    /// `[1, 32]`), merging connection attempts to `ports` into each
    /// outcome, with at most `max_in_flight` probes out at once (zero: no
    /// limit, every probe launched at once).
    pub fn new(base: u32, prefix_len: u8, ports: Vec<u16>, max_in_flight: usize) -> (s: Self)
        ensures
            s.wf(),
            s@ == (SessionView {
                targets: range_of(base, prefix_len),
                ports: ports@,
                limit: max_in_flight as nat,
                dispatched: 0,
                resolved: Set::empty(),
                cancelled: false,
                completed: false,
                events: seq![],
                order: seq![],
            }),
    {
        let targets = compute_range(base, prefix_len);
        let mut done: Vec<bool> = Vec::new();
        let mut i: usize = 0;
        while i < targets.len()
            invariant
                i <= targets.len(),
                done@.len() == i,
                forall|j: int| 0 <= j < i ==> !(#[trigger] done@[j]),
            decreases targets.len() - i,
        {
            done.push(false);
            i = i + 1;
        }
        proof {
            assert(range_of(base, prefix_len).len() >= 1) by {
                vstd::arithmetic::power2::lemma_pow2_pos(
                    crate::range::host_bits(crate::range::clamped_prefix(prefix_len)) as nat,
                );
            }
        }
        let s = ScanSession {
            targets,
            ports,
            limit: max_in_flight,
            dispatched: 0,
            done,
            resolved_count: 0,
            cancelled: false,
            completed: false,
            resolved: Ghost(Set::empty()),
            events: Ghost(Seq::empty()),
            order: Ghost(Seq::empty()),
        };
        s
    }

    /// Number of addresses in the sweep.
    pub fn target_count(&self) -> (r: usize)
        ensures
            r == self@.size(),
    {
        self.targets.len()
    }

    /// Number of probes whose outcome has come back.
    pub fn resolved_count(&self) -> (r: usize)
        requires
            self.wf(),
        ensures
            r == self@.resolved.len(),
    {
        self.resolved_count
    }

    /// Number of probes launched whose outcome has not come back.
    pub fn in_flight(&self) -> (r: usize)
        requires
            self.wf(),
        ensures
            r == self@.in_flight(),
    {
        proof {
            lemma_resolved_bound(self@);
        }
        self.dispatched - self.resolved_count
    }

    pub fn is_complete(&self) -> (r: bool)
        ensures
            r == self@.completed,
    {
        self.completed
    }

    pub fn is_cancelled(&self) -> (r: bool)
        ensures
            r == self@.cancelled,
    {
        self.cancelled
    }

    /// Whether the session has finished: completed, or cancelled with no
    /// probe left outstanding.
    pub fn is_closed(&self) -> (r: bool)
        requires
            self.wf(),
        ensures
            r == self@.is_closed(),
    {
        proof {
            lemma_resolved_bound(self@);
        }
        self.completed || (self.cancelled && self.dispatched == self.resolved_count)
    }

    /// The next probe to launch, if one may be launched now: targets go
    /// out in range order while the session is running and fewer than the
    /// limit are in flight.
    pub fn next_probe(&mut self) -> (r: Option<ProbeRequest>)
        requires
            old(self).wf(),
        ensures
            final(self).wf(),
            old(self)@.can_dispatch() ==> {
                &&& r matches Some(p)
                &&& p.index == old(self)@.dispatched
                &&& p.address == old(self)@.targets[p.index as int]
                &&& p.sequence == p.index % 0x1_0000
                &&& final(self)@ == (SessionView { dispatched: old(self)@.dispatched + 1, ..old(self)@ })
            },
            !old(self)@.can_dispatch() ==> r is None && final(self)@ == old(self)@,
    {
        proof {
            lemma_resolved_bound(self@);
        }
        if self.cancelled || self.completed || self.dispatched >= self.targets.len() {
            return None;
        }
        if self.limit > 0 && self.dispatched - self.resolved_count >= self.limit {
            return None;
        }
        let index = self.dispatched;
        let address = self.targets[index];
        self.dispatched = self.dispatched + 1;
        proof {
            lemma_consistent_frame(old(self)@, self@);
        }
        Some(ProbeRequest { index, address, sequence: (index % 0x1_0000) as u16 })
    }

    /// Takes what the probe of target `index` found: its round-trip time,
    /// or `None` when no reply came in time or the probe failed, and the
    /// result of the connection attempt to each configured port.
    ///
    /// Returns the events to deliver, in order. An index that was not
    /// handed out, or whose outcome was already taken, changes nothing.
    /// After cancellation outcomes are taken and discarded.
    pub fn record(&mut self, index: usize, reply_ms: Option<u128>, open: &Vec<bool>) -> (r: Vec<ScanMessage>)
        requires
            old(self).wf(),
        ensures
            final(self).wf(),
            final(self)@.events == old(self)@.events + views(r@),
            final(self)@.targets == old(self)@.targets,
            final(self)@.ports == old(self)@.ports,
            final(self)@.limit == old(self)@.limit,
            final(self)@.dispatched == old(self)@.dispatched,
            final(self)@.cancelled == old(self)@.cancelled,
            (index >= old(self)@.dispatched || old(self)@.resolved.contains(index as int)) ==> {
                &&& final(self)@ == old(self)@
                &&& r@.len() == 0
            },
            (index < old(self)@.dispatched && !old(self)@.resolved.contains(index as int)) ==> {
                &&& final(self)@.resolved == old(self)@.resolved.insert(index as int)
                &&& final(self)@.in_flight() == old(self)@.in_flight() - 1
                &&& old(self)@.cancelled ==> r@.len() == 0 && !final(self)@.completed
                &&& !old(self)@.cancelled ==> {
                    &&& views(r@) == old(self)@.delivered(index as int, reply_ms, open@)
                    &&& final(self)@.completed == (old(self)@.resolved.len() + 1 == old(self)@.size())
                }
            },
    {
        proof {
            lemma_resolved_bound(self@);
        }
        let ghost old_view = self@;
        if index >= self.dispatched || self.done[index] {
            let r: Vec<ScanMessage> = Vec::new();
            proof {
                assert(views(r@) =~= seq![]);
                assert(self@.events + views(r@) =~= self@.events);
            }
            return r;
        }
        proof {
            if old_view.completed {
                lemma_all_resolved(old_view);
            }
        }
        self.done[index] = true;
        proof {
            self.resolved@ = self.resolved@.insert(index as int);
            lemma_indices_bound(self.resolved@, self.dispatched as nat);
        }
        self.resolved_count = self.resolved_count + 1;
        if self.cancelled {
            let r: Vec<ScanMessage> = Vec::new();
            proof {
                assert(views(r@) =~= seq![]);
                assert(self@.events + views(r@) =~= self@.events);
                assert forall|k: int| 0 <= k < self@.order.len() implies #[trigger] self@.reports(k) by {
                    assert(old_view.reports(k));
                }
            }
            return r;
        }
        let address = self.targets[index];
        let found = probe_outcome(address, reply_ms, &self.ports, open);
        let ghost found_view = found@;
        let mut out: Vec<ScanMessage> = Vec::new();
        out.push(ScanMessage::Result(found));
        proof {
            self.events@ = self.events@.push(ScanMessageView::Result(found_view));
            self.order@ = self.order@.push(index as int);
        }
        if self.resolved_count == self.targets.len() {
            self.completed = true;
            out.push(ScanMessage::Complete);
            proof {
                self.events@ = self.events@.push(ScanMessageView::Complete);
            }
        }
        proof {
            let n = self@;
            assert(views(out@) =~= old_view.delivered(index as int, reply_ms, open@));
            assert(n.events =~= old_view.events + views(out@));
            assert forall|k: int| 0 <= k < n.order.len() implies #[trigger] n.reports(k) by {
                if k < old_view.order.len() {
                    assert(old_view.reports(k));
                    assert(n.events[k] == old_view.events[k]);
                }
            }
            assert forall|t: int| #[trigger] n.resolved.contains(t) implies exists|k: int|
                0 <= k < n.order.len() && n.order[k] == t by {
                if t == index as int {
                    assert(n.order[n.order.len() - 1] == t);
                } else {
                    assert(old_view.resolved.contains(t));
                    let k = choose|k: int| 0 <= k < old_view.order.len() && old_view.order[k] == t;
                    assert(n.order[k] == t);
                }
            }
            assert forall|k1: int, k2: int| 0 <= k1 < k2 < n.order.len() implies #[trigger] n.order[k1]
                != #[trigger] n.order[k2] by {
                if k2 == n.order.len() - 1 {
                    assert(old_view.reports(k1));
                }
            }
        }
        out
    }

    /// Abandons the sweep: no further probe is handed out, outcomes still
    /// to come are discarded, and `Complete` is never delivered. A session
    /// that has already completed is left as it is.
    pub fn cancel(&mut self)
        requires
            old(self).wf(),
        ensures
            final(self).wf(),
            old(self)@.completed ==> final(self)@ == old(self)@,
            !old(self)@.completed ==> final(self)@ == (SessionView { cancelled: true, ..old(self)@ }),
    {
        if !self.completed {
            self.cancelled = true;
            proof {
                lemma_consistent_frame(old(self)@, self@);
            }
        }
    }
}

} // verus!
