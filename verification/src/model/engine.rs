//! The engine: folds the message stream into flows and per-process rows.

use std::collections::{HashMap, VecDeque};

use vstd::prelude::*;

use super::{
    capped, flow_seq, row_views, Flow, FlowView, ProcRow, Proto, RowView,
};
use crate::ntstat::wire::{Counts, FlowDesc, FlowDescView};
use crate::rate::Rate;
use crate::{sort, text};

verus! {

broadcast use vstd::std_specs::hash::group_hash_axioms;

// ---- history ---------------------------------------------------------------

struct ProcHist {
    rx: VecDeque<u64>,
    tx: VecDeque<u64>,
}

/// Recent rates of one process, oldest first.
pub ghost struct HistView {
    pub rx: Seq<u64>,
    pub tx: Seq<u64>,
}

impl View for ProcHist {
    type V = HistView;

    closed spec fn view(&self) -> HistView {
        HistView { rx: self.rx@, tx: self.tx@ }
    }
}

/// `s` with `x` after it, cut down to the newest `cap`.
pub open spec fn pushed(s: Seq<u64>, x: u64, cap: nat) -> Seq<u64> {
    let longer = s.push(x);
    if longer.len() <= cap {
        longer
    } else {
        longer.skip(longer.len() - cap)
    }
}

impl HistView {
    /// No samples yet.
    pub open spec fn empty() -> HistView {
        HistView { rx: seq![], tx: seq![] }
    }

    /// The history with one more sample, the newest `cap` kept.
    pub open spec fn pushed(self, rx: u64, tx: u64, cap: nat) -> HistView {
        HistView { rx: pushed(self.rx, rx, cap), tx: pushed(self.tx, tx, cap) }
    }
}

fn push_sample(d: &mut VecDeque<u64>, x: u64, cap: usize)
    ensures
        final(d)@ == pushed(old(d)@, x, cap as nat),
{
    let ghost longer = d@.push(x);
    d.push_back(x);
    assert(d@ =~= longer.skip(0));
    while d.len() > cap
        invariant
            d@.len() <= longer.len(),
            d@ == longer.skip(longer.len() - d@.len()),
            d@.len() < cap ==> d@ == longer,
        decreases d@.len(),
    {
        d.pop_front();
        assert(d@ =~= longer.skip(longer.len() - d@.len()));
    }
    assert(longer.skip(0) =~= longer);
}

fn samples_of(d: &VecDeque<u64>) -> (v: Vec<u64>)
    ensures
        v@ == d@,
{
    let mut v: Vec<u64> = Vec::new();
    let mut i: usize = 0;
    while i < d.len()
        invariant
            i <= d@.len(),
            v@ == d@.take(i as int),
        decreases d@.len() - i,
    {
        v.push(d[i]);
        i += 1;
    }
    assert(d@.take(d@.len() as int) =~= d@);
    v
}

impl ProcHist {
    fn new() -> (r: Self)
        ensures
            r@ == HistView::empty(),
    {
        let r = ProcHist { rx: VecDeque::new(), tx: VecDeque::new() };
        assert(r@.rx =~= seq![] && r@.tx =~= seq![]);
        r
    }

    fn push(&mut self, rx: u64, tx: u64, cap: usize)
        ensures
            final(self)@ == old(self)@.pushed(rx, tx, cap as nat),
    {
        push_sample(&mut self.rx, rx, cap);
        push_sample(&mut self.tx, tx, cap);
    }
}

/// The keys of a map, each once, in no particular order.
fn keys_of<K: Copy + Eq + std::hash::Hash, V>(m: &HashMap<K, V>) -> (ks: Vec<K>)
    requires
        vstd::std_specs::hash::obeys_key_model::<K>(),
    ensures
        ks@.no_duplicates(),
        ks@.to_set() == m@.dom(),
{
    let mut ks: Vec<K> = Vec::new();
    for k in it: m.keys()
        invariant
            it.seq().unref().to_set() == m@.dom(),
            it.seq().unref().no_duplicates(),
            ks@ == it.seq().unref().take(it.index() as int),
            it.index() == it.seq().len() ==> ks@ == it.seq().unref(),
    {
        ks.push(*k);
    }
    ks
}

// ---- sums over a process's flows -------------------------------------------

/// What is added up over the flows of a process.
pub ghost enum Measure {
    RxBytes,
    TxBytes,
    RxDelta,
    TxDelta,
    Conns,
}

/// What the flow `f` adds to a measure of the process `pid`.
pub open spec fn measure(f: FlowView, pid: u32, m: Measure) -> nat {
    if f.belongs(pid) {
        match m {
            Measure::RxBytes => f.rx_bytes as nat,
            Measure::TxBytes => f.tx_bytes as nat,
            Measure::RxDelta => f.rx_delta as nat,
            Measure::TxDelta => f.tx_delta as nat,
            Measure::Conns => 1,
        }
    } else {
        0
    }
}

/// The measure of the process `pid` over all its flows among `flows`.
pub open spec fn sum(flows: Map<u64, FlowView>, pid: u32, m: Measure) -> nat
    decreases flows.dom().len(),
{
    if flows.dom().finite() && flows.dom().len() > 0 {
        let k = flows.dom().choose();
        measure(flows[k], pid, m) + sum(flows.remove(k), pid, m)
    } else {
        0
    }
}

/// Any one flow can be split off a sum.
pub proof fn lemma_sum_remove(flows: Map<u64, FlowView>, k: u64, pid: u32, m: Measure)
    requires
        flows.dom().finite(),
        flows.contains_key(k),
    ensures
        sum(flows, pid, m) == measure(flows[k], pid, m) + sum(flows.remove(k), pid, m),
    decreases flows.dom().len(),
{
    let c = flows.dom().choose();
    assert(flows.dom().contains(c));
    if c != k {
        lemma_sum_remove(flows.remove(c), k, pid, m);
        lemma_sum_remove(flows.remove(k), c, pid, m);
        assert(flows.remove(c).remove(k) =~= flows.remove(k).remove(c));
    }
}

/// A new flow adds its own measure to every sum.
pub proof fn lemma_sum_insert(flows: Map<u64, FlowView>, k: u64, f: FlowView)
    requires
        flows.dom().finite(),
        !flows.contains_key(k),
    ensures
        forall|pid: u32, m: Measure| #[trigger]
            sum(flows.insert(k, f), pid, m) == measure(f, pid, m) + sum(flows, pid, m),
{
    assert forall|pid: u32, m: Measure| #[trigger]
        sum(flows.insert(k, f), pid, m) == measure(f, pid, m) + sum(flows, pid, m) by {
        lemma_sum_remove(flows.insert(k, f), k, pid, m);
        assert(flows.insert(k, f).remove(k) =~= flows);
    }
}

/// Whether the process `pid` has a described flow.
pub open spec fn live(flows: Map<u64, FlowView>, pid: u32) -> bool {
    exists|k: u64| #[trigger] flows.contains_key(k) && flows[k].belongs(pid)
}

/// The connection count is positive just for the processes that have a flow.
pub proof fn lemma_live_counts(flows: Map<u64, FlowView>, pid: u32)
    requires
        flows.dom().finite(),
    ensures
        live(flows, pid) <==> sum(flows, pid, Measure::Conns) > 0,
    decreases flows.dom().len(),
{
    if flows.dom().len() > 0 {
        let c = flows.dom().choose();
        assert(flows.contains_key(c));
        lemma_live_counts(flows.remove(c), pid);
        if live(flows, pid) && !flows[c].belongs(pid) {
            let k = choose|k: u64| #[trigger] flows.contains_key(k) && flows[k].belongs(pid);
            assert(flows.remove(c).contains_key(k) && flows.remove(c)[k].belongs(pid));
        }
        if live(flows.remove(c), pid) {
            let k = choose|k: u64| #[trigger]
                flows.remove(c).contains_key(k) && flows.remove(c)[k].belongs(pid);
            assert(flows.contains_key(k) && flows[k].belongs(pid));
        }
    } else {
        assert(flows.dom() =~= Set::empty());
    }
}

// ---- the engine ------------------------------------------------------------

/// Folds the message stream into flows and per-process rows.
pub struct Engine {
    flows: HashMap<u64, Flow>,
    hist: HashMap<u32, ProcHist>,
    /// Per-pid (rx, tx) bytes from already-closed flows, so a process's TOTAL
    /// doesn't drop when one of its connections ends. Carried only while the pid
    /// still has a live flow and pruned the moment it has none — that bounds the
    /// map and stops one pid's bytes bleeding into a later, reused pid.
    retired: HashMap<u32, (u64, u64)>,
    rows: Vec<ProcRow>,
    hist_len: usize,
    /// Whether the next tick only takes a new reference for every flow.
    rebase: bool,
}

/// The state of an [`Engine`].
pub ghost struct EngineView {
    pub flows: Map<u64, FlowView>,
    pub hist: Map<u32, HistView>,
    pub retired: Map<u32, (u64, u64)>,
    pub rows: Seq<RowView>,
    pub hist_len: nat,
    pub rebase: bool,
}

/// The views of a map of flows.
pub open spec fn flow_views(m: Map<u64, Flow>) -> Map<u64, FlowView> {
    m.map_values(|f: Flow| f@)
}

spec fn hist_views(m: Map<u32, ProcHist>) -> Map<u32, HistView> {
    m.map_values(|h: ProcHist| h@)
}

impl View for Engine {
    type V = EngineView;

    closed spec fn view(&self) -> EngineView {
        EngineView {
            flows: flow_views(self.flows@),
            hist: hist_views(self.hist@),
            retired: self.retired@,
            rows: row_views(self.rows@),
            hist_len: self.hist_len as nat,
            rebase: self.rebase,
        }
    }
}

/// Every flow after a tick.
pub open spec fn sampled_flows(
    flows: Map<u64, FlowView>,
    nanos: u64,
    rebase: bool,
) -> Map<u64, FlowView> {
    flows.map_values(|f: FlowView| f.sampled(nanos, rebase))
}

/// The processes that have a described flow.
pub open spec fn live_pids(flows: Map<u64, FlowView>) -> Set<u32> {
    Set::new(|p: u32| live(flows, p))
}

/// Whether `name` is what the process `pid` is shown as: the name that one of
/// its flows carries, or the pid if none carries any.
pub open spec fn shown_as(name: Seq<char>, flows: Map<u64, FlowView>, pid: u32) -> bool {
    if some_named(flows, pid) {
        carried(name, flows, pid)
    } else {
        name == "pid "@ + text::decimal(pid as nat)
    }
}

/// Whether a flow of the process carries a name.
pub open spec fn some_named(flows: Map<u64, FlowView>, pid: u32) -> bool {
    exists|k: u64| #[trigger]
        flows.contains_key(k) && flows[k].belongs(pid) && flows[k].pname.len() > 0
}

/// Whether a flow of the process carries the name, which is not empty.
pub open spec fn carried(name: Seq<char>, flows: Map<u64, FlowView>, pid: u32) -> bool {
    name.len() > 0 && exists|k: u64| #[trigger]
        flows.contains_key(k) && flows[k].belongs(pid) && flows[k].pname == name
}

/// Whether all rows come from one tick.
pub open spec fn one_span(rows: Seq<RowView>) -> bool {
    forall|i: int, j: int|
        #![trigger rows[i], rows[j]]
        0 <= i < rows.len() && 0 <= j < rows.len() ==> rows[i].span == rows[j].span
}

/// Whether every process with a history has a row.
pub open spec fn every_history_shown(hist: Map<u32, HistView>, rows: Seq<RowView>) -> bool {
    forall|p: u32| #[trigger]
        hist.contains_key(p) ==> exists|i: int|
            0 <= i < rows.len() && (#[trigger] rows[i]).pid == p
}

/// The bytes carried for `pid` from flows that have closed.
pub open spec fn carry(retired: Map<u32, (u64, u64)>, pid: u32) -> (u64, u64) {
    if retired.contains_key(pid) {
        retired[pid]
    } else {
        (0, 0)
    }
}

/// The history of `pid` so far.
pub open spec fn history(hist: Map<u32, HistView>, pid: u32) -> HistView {
    if hist.contains_key(pid) {
        hist[pid]
    } else {
        HistView::empty()
    }
}

impl EngineView {
    /// An engine that has seen nothing.
    pub open spec fn fresh(hist_len: nat) -> EngineView {
        EngineView {
            flows: Map::empty(),
            hist: Map::empty(),
            retired: Map::empty(),
            rows: seq![],
            hist_len,
            rebase: false,
        }
    }

    /// Every history holds at least one sample; one row stands for each process
    /// with a history and shows it; no history outgrows `hist_len`; all rows are
    /// of one tick.
    pub open spec fn wf(self) -> bool {
        &&& self.hist_len >= 1
        &&& self.flows.dom().finite()
        &&& forall|p: u32| #[trigger]
            self.hist.contains_key(p) ==> 1 <= self.hist[p].rx.len() <= self.hist_len
                && self.hist[p].tx.len() == self.hist[p].rx.len()
        &&& forall|i: int, j: int|
            #![trigger self.rows[i], self.rows[j]]
            0 <= i < j < self.rows.len() ==> self.rows[i].pid != self.rows[j].pid
        &&& forall|i: int|
            0 <= i < self.rows.len() ==> {
                &&& self.hist.contains_key((#[trigger] self.rows[i]).pid)
                &&& self.rows[i].rx_hist == self.hist[self.rows[i].pid].rx
                &&& self.rows[i].tx_hist == self.hist[self.rows[i].pid].tx
            }
        &&& every_history_shown(self.hist, self.rows)
        &&& one_span(self.rows)
    }

    /// The flow `srcref`, or a blank one of the protocol.
    pub open spec fn flow_or_blank(self, srcref: u64, proto: Proto) -> FlowView {
        if self.flows.contains_key(srcref) {
            self.flows[srcref]
        } else {
            FlowView::blank(proto)
        }
    }

    /// The state with `f` as the flow `srcref`.
    pub open spec fn with_flow(self, srcref: u64, f: FlowView) -> EngineView {
        EngineView { flows: self.flows.insert(srcref, f), ..self }
    }

    /// The state once a source of the protocol appeared.
    pub open spec fn added(self, srcref: u64, proto: Proto) -> EngineView {
        self.with_flow(srcref, FlowView { proto, ..self.flow_or_blank(srcref, proto) })
    }

    /// The state once a descriptor named a flow.
    pub open spec fn described(self, srcref: u64, proto: Proto, desc: FlowDescView) -> EngineView {
        self.with_flow(srcref, self.flow_or_blank(srcref, proto).named(proto, desc))
    }

    /// The state once fresh counters came in.
    pub open spec fn counted(self, srcref: u64, counts: Counts) -> EngineView {
        self.with_flow(srcref, self.flow_or_blank(srcref, Proto::Tcp).counting(counts))
    }

    /// The state once counters came in, with or without a descriptor.
    pub open spec fn updated(
        self,
        srcref: u64,
        proto: Proto,
        counts: Counts,
        desc: Option<FlowDescView>,
    ) -> EngineView {
        match desc {
            Some(d) => self.described(srcref, proto, d).counted(srcref, counts),
            None => self.counted(srcref, counts),
        }
    }

    /// The state once a source went away: its bytes are carried for its process.
    pub open spec fn removed(self, srcref: u64) -> EngineView {
        if !self.flows.contains_key(srcref) {
            self
        } else {
            let f = self.flows[srcref];
            let sofar = carry(self.retired, f.pid);
            EngineView {
                flows: self.flows.remove(srcref),
                retired: if f.belongs(f.pid) {
                    self.retired.insert(
                        f.pid,
                        (
                            capped((sofar.0 + f.rx_bytes) as nat),
                            capped((sofar.1 + f.tx_bytes) as nat),
                        ),
                    )
                } else {
                    self.retired
                },
                ..self
            }
        }
    }

    /// Throughput down of the process over the last tick.
    pub open spec fn rx_rate(self, pid: u32, nanos: u64) -> Rate {
        Rate { bytes: sum(self.flows, pid, Measure::RxDelta) as u128, nanos }
    }

    /// Throughput up of the process over the last tick.
    pub open spec fn tx_rate(self, pid: u32, nanos: u64) -> Rate {
        Rate { bytes: sum(self.flows, pid, Measure::TxDelta) as u128, nanos }
    }

    /// Whether `row` says of its process what a tick of `nanos` finds, given the
    /// flows after it and the bytes `retired` had carried before it.
    pub open spec fn row_holds(
        self,
        row: RowView,
        nanos: u64,
        retired: Map<u32, (u64, u64)>,
    ) -> bool {
        &&& live(self.flows, row.pid)
        &&& shown_as(row.name, self.flows, row.pid)
        &&& row.rx_delta == sum(self.flows, row.pid, Measure::RxDelta)
        &&& row.tx_delta == sum(self.flows, row.pid, Measure::TxDelta)
        &&& row.span == nanos
        &&& row.rx_total == capped(
            sum(self.flows, row.pid, Measure::RxBytes) + carry(retired, row.pid).0 as nat,
        )
        &&& row.tx_total == capped(
            sum(self.flows, row.pid, Measure::TxBytes) + carry(retired, row.pid).1 as nat,
        )
        &&& row.conns == sum(self.flows, row.pid, Measure::Conns)
        &&& row.rx_hist == self.hist[row.pid].rx
        &&& row.tx_hist == self.hist[row.pid].tx
    }

    /// The histories after a tick: one more sample for each process with a flow,
    /// and nothing for any other.
    pub open spec fn next_hist(self, flows: Map<u64, FlowView>, nanos: u64) -> Map<u32, HistView> {
        let post = EngineView { flows, ..self };
        Map::new(
            |p: u32| live(flows, p),
            |p: u32|
                history(self.hist, p).pushed(
                    capped(post.rx_rate(p, nanos).whole()),
                    capped(post.tx_rate(p, nanos).whole()),
                    self.hist_len,
                ),
        )
    }

    /// Whether `post` is the state after a tick of `nanos`: every flow sampled,
    /// the carried bytes and histories of processes without a flow dropped, and
    /// just one row for each process with a flow.
    pub open spec fn ticks_to(self, nanos: u64, post: EngineView) -> bool {
        &&& post.flows == sampled_flows(self.flows, nanos, self.rebase)
        &&& post.retired == self.retired.restrict(live_pids(post.flows))
        &&& post.hist == self.next_hist(post.flows, nanos)
        &&& post.hist_len == self.hist_len
        &&& !post.rebase
        &&& forall|i: int|
            0 <= i < post.rows.len() ==> post.row_holds(
                #[trigger] post.rows[i],
                nanos,
                self.retired,
            )
        &&& forall|p: u32| #[trigger]
            live(post.flows, p) ==> exists|i: int|
                0 <= i < post.rows.len() && (#[trigger] post.rows[i]).pid == p
        &&& forall|i: int, j: int|
            #![trigger post.rows[i], post.rows[j]]
            0 <= i < j < post.rows.len() ==> post.rows[i].pid != post.rows[j].pid
    }
}

/// A tick keeps the invariant.
pub proof fn lemma_tick_keeps_wf(pre: EngineView, nanos: u64, post: EngineView)
    requires
        pre.wf(),
        pre.ticks_to(nanos, post),
    ensures
        post.wf(),
{
    assert(post.flows.dom() =~= pre.flows.dom());
    assert forall|p: u32| #[trigger] post.hist.contains_key(p) implies 1 <= post.hist[p].rx.len()
        <= post.hist_len && post.hist[p].tx.len() == post.hist[p].rx.len() by {
        let h = history(pre.hist, p);
        assert(h.rx.len() <= pre.hist_len && h.tx.len() == h.rx.len());
    }
    assert forall|i: int| 0 <= i < post.rows.len() implies {
        &&& post.hist.contains_key((#[trigger] post.rows[i]).pid)
        &&& post.rows[i].rx_hist == post.hist[post.rows[i].pid].rx
        &&& post.rows[i].tx_hist == post.hist[post.rows[i].pid].tx
    } by {
        assert(post.row_holds(post.rows[i], nanos, pre.retired));
    }
    assert forall|i: int, j: int|
        #![trigger post.rows[i], post.rows[j]]
        0 <= i < post.rows.len() && 0 <= j < post.rows.len() implies post.rows[i].span
        == post.rows[j].span by {
        assert(post.row_holds(post.rows[i], nanos, pre.retired));
        assert(post.row_holds(post.rows[j], nanos, pre.retired));
    }
}

/// What one process's flows add up to so far.
struct Agg {
    name: String,
    rx_delta: u128,
    tx_delta: u128,
    rx_total: u64,
    tx_total: u64,
    conns: usize,
}

impl Agg {
    /// Whether this is the sum over the flows of `pid` among `flows`.
    spec fn holds(self, flows: Map<u64, FlowView>, pid: u32) -> bool {
        &&& self.rx_delta == sum(flows, pid, Measure::RxDelta)
        &&& self.tx_delta == sum(flows, pid, Measure::TxDelta)
        &&& self.rx_total == capped(sum(flows, pid, Measure::RxBytes))
        &&& self.tx_total == capped(sum(flows, pid, Measure::TxBytes))
        &&& self.conns == sum(flows, pid, Measure::Conns)
        &&& if some_named(flows, pid) {
            carried(self.name@, flows, pid)
        } else {
            self.name@.len() == 0
        }
    }

    fn new() -> (r: Agg)
        ensures
            r.name@.len() == 0,
            r.rx_delta == 0,
            r.tx_delta == 0,
            r.rx_total == 0,
            r.tx_total == 0,
            r.conns == 0,
    {
        Agg {
            name: String::new(),
            rx_delta: 0,
            tx_delta: 0,
            rx_total: 0,
            tx_total: 0,
            conns: 0,
        }
    }

    /// Adds the flow `f`, which is not yet counted.
    fn count(&mut self, f: &Flow, Ghost(flows): Ghost<Map<u64, FlowView>>, Ghost(k): Ghost<u64>)
        requires
            flows.dom().finite(),
            !flows.contains_key(k),
            f@.belongs(f.pid),
            old(self).holds(flows, f.pid),
            old(self).rx_delta + u64::MAX <= u128::MAX,
            old(self).tx_delta + u64::MAX <= u128::MAX,
            old(self).conns < usize::MAX,
        ensures
            final(self).holds(flows.insert(k, f@), f.pid),
    {
        let ghost pid = f.pid;
        let ghost more = flows.insert(k, f@);
        proof {
            lemma_sum_insert(flows, k, f@);
        }
        if self.name.as_str().is_empty() && !f.pname.as_str().is_empty() {
            self.name = f.pname.clone();
        }
        self.rx_delta = self.rx_delta + f.rx_delta as u128;
        self.tx_delta = self.tx_delta + f.tx_delta as u128;
        self.rx_total = self.rx_total.saturating_add(f.rx_bytes);
        self.tx_total = self.tx_total.saturating_add(f.tx_bytes);
        self.conns = self.conns + 1;
        proof {
            assert(more.contains_key(k) && more[k] == f@);
            if some_named(flows, pid) {
                let j = choose|j: u64| #[trigger]
                    flows.contains_key(j) && flows[j].belongs(pid) && flows[j].pname
                        == old(self).name@;
                assert(more.contains_key(j) && more[j] == flows[j]);
                assert(some_named(more, pid));
                assert(carried(self.name@, more, pid));
            } else {
                if some_named(more, pid) {
                    let j = choose|j: u64| #[trigger]
                        more.contains_key(j) && more[j].belongs(pid) && more[j].pname.len() > 0;
                    if j != k {
                        assert(flows.contains_key(j) && flows[j] == more[j]);
                    }
                    assert(f.pname@.len() > 0);
                    assert(carried(self.name@, more, pid));
                } else {
                    assert(f.pname@.len() == 0);
                }
            }
        }
    }
}

fn sample_flows(flows: &mut HashMap<u64, Flow>, nanos: u64, rebase: bool)
    ensures
        flow_views(final(flows)@) == sampled_flows(flow_views(old(flows)@), nanos, rebase),
{
    let keys: Vec<u64> = keys_of(flows);
    let ghost before = flows@;
    let mut i: usize = 0;
    while i < keys.len()
        invariant
            i <= keys@.len(),
            keys@.no_duplicates(),
            keys@.to_set() == before.dom(),
            flows@.dom() == before.dom(),
            forall|j: int|
                0 <= j < i ==> flows@[#[trigger] keys@[j]]@ == before[keys@[j]]@.sampled(
                    nanos,
                    rebase,
                ),
            forall|j: int| i <= j < keys@.len() ==> flows@[#[trigger] keys@[j]] == before[keys@[j]],
        decreases keys@.len() - i,
    {
        let k: u64 = keys[i];
        assert(keys@.to_set().contains(k));
        if let Some(mut f) = flows.remove(&k) {
            f.sample(nanos, rebase);
            flows.insert(k, f);
        }
        assert(flows@.dom() =~= before.dom());
        i += 1;
    }
    proof {
        let want = sampled_flows(flow_views(before), nanos, rebase);
        assert forall|k: u64| before.contains_key(k) implies flow_views(flows@)[k] == want[k] by {
            assert(keys@.to_set().contains(k));
            let j = choose|j: int| 0 <= j < keys@.len() && keys@[j] == k;
            assert(flows@[keys@[j]]@ == before[keys@[j]]@.sampled(nanos, rebase));
        }
        assert(flow_views(flows@) =~= want);
    }
}

/// A flow of another process changes nothing for `pid`.
proof fn lemma_other_flow(flows: Map<u64, FlowView>, k: u64, f: FlowView, pid: u32)
    requires
        flows.dom().finite(),
        !flows.contains_key(k),
        !f.belongs(pid),
    ensures
        live(flows.insert(k, f), pid) == live(flows, pid),
        forall|a: Agg| #[trigger] a.holds(flows, pid) ==> a.holds(flows.insert(k, f), pid),
{
    let more = flows.insert(k, f);
    lemma_sum_insert(flows, k, f);
    if live(more, pid) {
        let j = choose|j: u64| #[trigger] more.contains_key(j) && more[j].belongs(pid);
        assert(flows.contains_key(j) && flows[j] == more[j]);
    }
    if live(flows, pid) {
        let j = choose|j: u64| #[trigger] flows.contains_key(j) && flows[j].belongs(pid);
        assert(more.contains_key(j) && more[j] == flows[j]);
    }
    assert forall|a: Agg| #[trigger] a.holds(flows, pid) implies a.holds(more, pid) by {
        if some_named(flows, pid) {
            let j = choose|j: u64| #[trigger]
                flows.contains_key(j) && flows[j].belongs(pid) && flows[j].pname == a.name@;
            assert(more.contains_key(j) && more[j] == flows[j]);
            assert(some_named(more, pid));
            assert(carried(a.name@, more, pid));
        } else if some_named(more, pid) {
            let j = choose|j: u64| #[trigger]
                more.contains_key(j) && more[j].belongs(pid) && more[j].pname.len() > 0;
            assert(flows.contains_key(j) && flows[j] == more[j]);
        }
    }
}

/// The described flows added up by process.
fn aggregate(flows: &HashMap<u64, Flow>) -> (by_pid: HashMap<u32, Agg>)
    ensures
        forall|p: u32| #[trigger] by_pid@.contains_key(p) <==> live(flow_views(flows@), p),
        forall|p: u32| #[trigger]
            by_pid@.contains_key(p) ==> by_pid@[p].holds(flow_views(flows@), p),
{
    let keys: Vec<u64> = keys_of(flows);
    let len: usize = keys.len();
    let ghost all = flow_views(flows@);
    let ghost mut done: Map<u64, FlowView> = Map::empty();
    let mut by_pid: HashMap<u32, Agg> = HashMap::new();
    let mut i: usize = 0;
    while i < len
        invariant
            i <= len == keys@.len(),
            keys@.no_duplicates(),
            keys@.to_set() == flows@.dom(),
            all == flow_views(flows@),
            done.dom().finite(),
            forall|k: u64| #[trigger] done.contains_key(k) <==> keys@.take(i as int).contains(k),
            forall|k: u64| #[trigger] done.contains_key(k) ==> done[k] == all[k],
            forall|p: u32| #[trigger] by_pid@.contains_key(p) <==> live(done, p),
            forall|p: u32| #[trigger]
                by_pid@.contains_key(p) ==> {
                    &&& by_pid@[p].holds(done, p)
                    &&& by_pid@[p].rx_delta <= i * u64::MAX
                    &&& by_pid@[p].tx_delta <= i * u64::MAX
                    &&& by_pid@[p].conns <= i
                },
        decreases len - i,
    {
        let k: u64 = keys[i];
        let ghost was = by_pid@;
        let ghost more = done.insert(k, all[k]);
        proof {
            assert(keys@.to_set().contains(k));
            assert(keys@.take(i + 1) =~= keys@.take(i as int).push(k));
            if done.contains_key(k) {
                let j = choose|j: int| 0 <= j < i && keys@.take(i as int)[j] == k;
                assert(keys@[j] == keys@[i as int]);
            }
            assert forall|x: u64| #[trigger] more.contains_key(x) <==> keys@.take(i + 1).contains(
                x,
            ) by {
                let t = keys@.take(i as int);
                if t.contains(x) {
                    let j = choose|j: int| 0 <= j < t.len() && t[j] == x;
                    assert(t.push(k)[j] == x);
                }
                assert(t.push(k)[i as int] == k);
            }
        }
        if let Some(f) = flows.get(&k) {
            assert(f@ == all[k]);
            if f.described && f.pid != 0 {
                let pid: u32 = f.pid;
                let mut agg = match by_pid.remove(&pid) {
                    Some(a) => a,
                    None => Agg::new(),
                };
                proof {
                    if !was.contains_key(pid) {
                        lemma_nothing_counted(done, pid);
                    }
                    assert(agg.holds(done, pid));
                    assert(i * u64::MAX + u64::MAX <= u128::MAX) by (nonlinear_arith)
                        requires
                            i < 0xffff_ffff_ffff_ffff,
                    ;
                }
                agg.count(f, Ghost(done), Ghost(k));
                by_pid.insert(pid, agg);
                proof {
                    assert(more.contains_key(k) && more[k].belongs(pid));
                    assert(live(more, pid));
                    lemma_sum_insert(done, k, all[k]);
                    assert forall|p: u32| #[trigger] by_pid@.contains_key(p) <==> live(more, p) by {
                        if p != pid {
                            lemma_other_flow(done, k, all[k], p);
                            assert(by_pid@.contains_key(p) == was.contains_key(p));
                        }
                    }
                    assert forall|p: u32| #[trigger] by_pid@.contains_key(p) implies {
                        &&& by_pid@[p].holds(more, p)
                        &&& by_pid@[p].rx_delta <= (i + 1) * u64::MAX
                        &&& by_pid@[p].tx_delta <= (i + 1) * u64::MAX
                        &&& by_pid@[p].conns <= i + 1
                    } by {
                        if p != pid {
                            lemma_other_flow(done, k, all[k], p);
                            assert(was.contains_key(p) && by_pid@[p] == was[p]);
                        }
                    }
                }
            } else {
                proof {
                    assert forall|p: u32| #[trigger] by_pid@.contains_key(p) <==> live(more, p) by {
                        lemma_other_flow(done, k, all[k], p);
                    }
                    assert forall|p: u32| #[trigger] by_pid@.contains_key(p) implies by_pid@[p].holds(
                        more,
                        p,
                    ) by {
                        lemma_other_flow(done, k, all[k], p);
                    }
                }
            }
        }
        proof {
            done = more;
        }
        i += 1;
    }
    proof {
        assert(keys@.take(len as int) =~= keys@);
        assert forall|k: u64| done.contains_key(k) <==> all.contains_key(k) by {
            assert(keys@.contains(k) <==> keys@.to_set().contains(k));
        }
        assert(done =~= all);
    }
    by_pid
}

/// Without a flow of the process nothing is counted for it.
pub proof fn lemma_nothing_counted(flows: Map<u64, FlowView>, pid: u32)
    requires
        flows.dom().finite(),
        !live(flows, pid),
    ensures
        forall|m: Measure| #[trigger] sum(flows, pid, m) == 0,
        !some_named(flows, pid),
    decreases flows.dom().len(),
{
    if flows.dom().len() > 0 {
        let c = flows.dom().choose();
        assert(flows.contains_key(c));
        assert(!live(flows.remove(c), pid)) by {
            if live(flows.remove(c), pid) {
                let k = choose|k: u64| #[trigger]
                    flows.remove(c).contains_key(k) && flows.remove(c)[k].belongs(pid);
                assert(flows.contains_key(k) && flows[k].belongs(pid));
            }
        }
        lemma_nothing_counted(flows.remove(c), pid);
        assert forall|m: Measure| #[trigger] sum(flows, pid, m) == 0 by {
            assert(sum(flows.remove(c), pid, m) == 0);
        }
    }
    if some_named(flows, pid) {
        let k = choose|k: u64| #[trigger]
            flows.contains_key(k) && flows[k].belongs(pid) && flows[k].pname.len() > 0;
        assert(flows.contains_key(k) && flows[k].belongs(pid));
    }
}

impl Engine {
    /// The invariant of the engine.
    pub open spec fn wf(&self) -> bool {
        self@.wf()
    }

    pub fn new(hist_len: usize) -> (r: Self)
        ensures
            r.wf(),
            r@ == EngineView::fresh(if hist_len == 0 { 1 } else { hist_len as nat }),
    {
        let r = Engine {
            flows: HashMap::new(),
            hist: HashMap::new(),
            retired: HashMap::new(),
            rows: Vec::new(),
            hist_len: if hist_len == 0 { 1 } else { hist_len },
            rebase: false,
        };
        assert(r@.flows =~= Map::empty());
        assert(r@.hist =~= Map::empty());
        assert(r@.retired =~= Map::empty());
        assert(r@.rows =~= seq![]);
        r
    }

    fn take_flow(&mut self, srcref: u64, proto: Proto) -> (f: Flow)
        ensures
            f@ == old(self)@.flow_or_blank(srcref, proto),
            final(self)@ == (EngineView {
                flows: old(self)@.flows.remove(srcref),
                ..old(self)@
            }),
    {
        let f = match self.flows.remove(&srcref) {
            Some(f) => f,
            None => Flow::new(proto),
        };
        assert(self@.flows =~= old(self)@.flows.remove(srcref));
        f
    }

    fn put_flow(&mut self, srcref: u64, f: Flow)
        ensures
            final(self)@ == old(self)@.with_flow(srcref, f@),
    {
        self.flows.insert(srcref, f);
        assert(self@.flows =~= old(self)@.flows.insert(srcref, f@));
    }

    /// A new source appeared; remember its protocol so it's right even if counts
    /// arrive before the descriptor.
    pub fn on_added(&mut self, srcref: u64, proto: Proto)
        requires
            old(self).wf(),
        ensures
            final(self).wf(),
            final(self)@ == old(self)@.added(srcref, proto),
    {
        let mut f = self.take_flow(srcref, proto);
        f.proto = proto;
        self.put_flow(srcref, f);
        assert(self@.flows =~= old(self)@.added(srcref, proto).flows);
    }

    /// A descriptor named the flow (pid, process name, endpoints, TCP state).
    pub fn on_desc(&mut self, srcref: u64, proto: Proto, desc: FlowDesc)
        requires
            old(self).wf(),
        ensures
            final(self).wf(),
            final(self)@ == old(self)@.described(srcref, proto, desc@),
    {
        let mut f = self.take_flow(srcref, proto);
        f.proto = proto;
        f.pid = desc.pid;
        f.pname = desc.pname;
        f.local = desc.local;
        f.remote = desc.remote;
        f.tcp_state = desc.tcp_state;
        f.described = true;
        self.put_flow(srcref, f);
        assert(self@.flows =~= old(self)@.described(srcref, proto, desc@).flows);
    }

    /// Fresh cumulative counters for a flow. The protocol of one that is not
    /// known yet is put right by `on_added`/`on_desc`.
    pub fn on_counts(&mut self, srcref: u64, counts: Counts)
        requires
            old(self).wf(),
        ensures
            final(self).wf(),
            final(self)@ == old(self)@.counted(srcref, counts),
    {
        let mut f = self.take_flow(srcref, Proto::Tcp);
        f.rx_bytes = counts.rx_bytes;
        f.tx_bytes = counts.tx_bytes;
        self.put_flow(srcref, f);
        assert(self@.flows =~= old(self)@.counted(srcref, counts).flows);
    }

    /// A bundled update (counts + optional descriptor).
    pub fn on_update(&mut self, srcref: u64, proto: Proto, counts: Counts, desc: Option<FlowDesc>)
        requires
            old(self).wf(),
        ensures
            final(self).wf(),
            final(self)@ == old(self)@.updated(
                srcref,
                proto,
                counts,
                crate::ntstat::wire::desc_view(desc),
            ),
    {
        if let Some(desc) = desc {
            self.on_desc(srcref, proto, desc);
        }
        self.on_counts(srcref, counts);
    }

    /// A source went away. Its final byte counts are carried onto the owning pid
    /// so the process's TOTAL stays monotonic while it still has other flows.
    pub fn on_removed(&mut self, srcref: u64)
        requires
            old(self).wf(),
        ensures
            final(self).wf(),
            final(self)@ == old(self)@.removed(srcref),
    {
        if let Some(f) = self.flows.remove(&srcref) {
            if f.described && f.pid != 0 {
                let (rx, tx): (u64, u64) = match self.retired.get(&f.pid) {
                    Some(c) => *c,
                    None => (0, 0),
                };
                self.retired.insert(
                    f.pid,
                    (rx.saturating_add(f.rx_bytes), tx.saturating_add(f.tx_bytes)),
                );
            }
        }
        assert(self@.flows =~= old(self)@.removed(srcref).flows);
        assert(self@.retired =~= old(self)@.removed(srcref).retired);
    }

    /// Recompute per-flow rates from the counter deltas over `nanos` nanoseconds,
    /// then rebuild the aggregated per-process rows and push a sample into each
    /// process's sparkline history. Call once per refresh interval.
    pub fn tick(&mut self, nanos: u64)
        requires
            old(self).wf(),
        ensures
            final(self).wf(),
            old(self)@.ticks_to(nanos, final(self)@),
    {
        let ghost pre = self@;
        sample_flows(&mut self.flows, nanos, self.rebase);
        self.rebase = false;
        let ghost flows = flow_views(self.flows@);
        let mut by_pid: HashMap<u32, Agg> = aggregate(&self.flows);
        let ghost aggs = by_pid@;
        let pids: Vec<u32> = keys_of(&by_pid);
        let mut retired: HashMap<u32, (u64, u64)> = HashMap::new();
        let mut hist: HashMap<u32, ProcHist> = HashMap::new();
        let mut rows: Vec<ProcRow> = Vec::new();
        let ghost want = pre.next_hist(flows, nanos);
        let mut i: usize = 0;
        while i < pids.len()
            invariant
                i <= pids@.len(),
                pids@.no_duplicates(),
                pids@.to_set() == aggs.dom(),
                flows == flow_views(self.flows@),
                pre.wf(),
                flows == sampled_flows(pre.flows, nanos, pre.rebase),
                want == pre.next_hist(flows, nanos),
                self.hist_len == pre.hist_len,
                self.retired@ == pre.retired,
                !self.rebase,
                forall|p: u32| #[trigger] aggs.contains_key(p) <==> live(flows, p),
                forall|p: u32| #[trigger] aggs.contains_key(p) ==> aggs[p].holds(flows, p),
                forall|j: int|
                    i <= j < pids@.len() ==> by_pid@.contains_key(#[trigger] pids@[j])
                        && by_pid@[pids@[j]] == aggs[pids@[j]],
                forall|j: int|
                    i <= j < pids@.len() ==> (self.hist@.contains_key(#[trigger] pids@[j])
                        <==> pre.hist.contains_key(pids@[j])) && (self.hist@.contains_key(pids@[j])
                        ==> self.hist@[pids@[j]]@ == pre.hist[pids@[j]]),
                forall|p: u32| #[trigger]
                    retired@.contains_key(p) <==> pids@.take(i as int).contains(p)
                        && pre.retired.contains_key(p),
                forall|p: u32| #[trigger] retired@.contains_key(p) ==> retired@[p] == pre.retired[p],
                forall|p: u32| #[trigger]
                    hist@.contains_key(p) <==> pids@.take(i as int).contains(p),
                forall|p: u32| #[trigger] hist@.contains_key(p) ==> hist@[p]@ == want[p],
                rows@.len() == i,
                forall|j: int|
                    0 <= j < i ==> (EngineView { flows, hist: want, ..pre }).row_holds(
                        (#[trigger] rows@[j])@,
                        nanos,
                        pre.retired,
                    ),
                forall|j: int| 0 <= j < i ==> (#[trigger] rows@[j]).pid == pids@[j],
            decreases pids@.len() - i,
        {
            let pid: u32 = pids[i];
            let ghost seen = pids@.take(i as int);
            proof {
                assert(pids@.to_set().contains(pid));
                assert(pids@.take(i + 1) =~= seen.push(pid));
                assert forall|p: u32| #[trigger] pids@.take(i + 1).contains(p) <==> seen.contains(p)
                    || p == pid by {
                    if seen.contains(p) {
                        let j = choose|j: int| 0 <= j < seen.len() && seen[j] == p;
                        assert(seen.push(pid)[j] == p);
                    }
                    assert(seen.push(pid)[i as int] == pid);
                }
            }
            let agg = match by_pid.remove(&pid) {
                Some(a) => a,
                None => Agg::new(),
            };
            let (mut rx_total, mut tx_total): (u64, u64) = (agg.rx_total, agg.tx_total);
            if let Some(c) = self.retired.get(&pid) {
                rx_total = rx_total.saturating_add(c.0);
                tx_total = tx_total.saturating_add(c.1);
                retired.insert(pid, *c);
            }
            let mut h = match self.hist.remove(&pid) {
                Some(h) => h,
                None => ProcHist::new(),
            };
            let rx_rate = Rate { bytes: agg.rx_delta, nanos };
            let tx_rate = Rate { bytes: agg.tx_delta, nanos };
            h.push(rx_rate.per_second(), tx_rate.per_second(), self.hist_len);
            let name: String = if agg.name.as_str().is_empty() {
                let mut s: String = "pid ".to_owned();
                text::push_decimal(&mut s, pid as u128);
                s
            } else {
                agg.name
            };
            let row = ProcRow {
                pid,
                name,
                rx_delta: agg.rx_delta,
                tx_delta: agg.tx_delta,
                span: nanos,
                rx_total,
                tx_total,
                conns: agg.conns,
                rx_hist: samples_of(&h.rx),
                tx_hist: samples_of(&h.tx),
            };
            assert(h@ == want[pid]);
            assert((EngineView { flows, hist: want, ..pre }).row_holds(row@, nanos, pre.retired));
            hist.insert(pid, h);
            rows.push(row);
            i += 1;
        }
        self.retired = retired;
        self.hist = hist;
        self.rows = rows;
        proof {
            assert(pids@.take(pids@.len() as int) =~= pids@);
            assert forall|p: u32| pids@.contains(p) <==> live(flows, p) by {
                assert(pids@.contains(p) <==> pids@.to_set().contains(p));
                assert(aggs.dom().contains(p) <==> aggs.contains_key(p));
            }
            assert(self@.hist =~= want);
            assert(self@.retired =~= pre.retired.restrict(live_pids(flows)));
            let post = self@;
            assert forall|j: int| 0 <= j < post.rows.len() implies post.row_holds(
                #[trigger] post.rows[j],
                nanos,
                pre.retired,
            ) by {
                assert(post.rows[j] == self.rows@[j]@);
                assert((EngineView { flows, hist: want, ..pre }).row_holds(
                    self.rows@[j]@,
                    nanos,
                    pre.retired,
                ));
            }
            assert forall|p: u32| #[trigger] live(post.flows, p) implies exists|j: int|
                0 <= j < post.rows.len() && (#[trigger] post.rows[j]).pid == p by {
                let j = choose|j: int| 0 <= j < pids@.len() && pids@[j] == p;
                assert(post.rows[j].pid == p);
            }
            lemma_tick_keeps_wf(pre, nanos, post);
        }
    }

    /// Re-baseline every flow's rate reference on the next tick, so that the
    /// time since the last one isn't rendered as a one-tick rate spike.
    pub fn reprime(&mut self)
        requires
            old(self).wf(),
        ensures
            final(self).wf(),
            final(self)@ == (EngineView { rebase: true, ..old(self)@ }),
    {
        self.rebase = true;
    }
}

/// Whether the flow is one that the detail view of `pid` lists.
pub open spec fn listed(f: FlowView, pid: u32) -> bool {
    f.described && f.pid == pid
}

/// The order of the detail view: busiest first, then by remote port.
pub open spec fn flow_before(a: FlowView, b: FlowView) -> bool {
    b.total_rate().below(a.total_rate()) || (!a.total_rate().below(b.total_rate())
        && a.remote_port() < b.remote_port())
}

/// Whether `keys` names every flow that the detail view of `pid` lists, once.
pub open spec fn names_listed(keys: Seq<u64>, flows: Map<u64, FlowView>, pid: u32) -> bool {
    &&& keys.no_duplicates()
    &&& forall|k: u64| #[trigger]
        keys.contains(k) <==> flows.contains_key(k) && listed(flows[k], pid)
}

/// Whether `list` is the detail view of `pid`: every described flow of the
/// process once, none after one that it goes before.
pub open spec fn is_detail(list: Seq<FlowView>, flows: Map<u64, FlowView>, pid: u32) -> bool {
    &&& exists|keys: Seq<u64>| #[trigger]
        names_listed(keys, flows, pid) && list =~= keys.map_values(|k: u64| flows[k])
    &&& forall|i: int, j: int|
        #![trigger list[i], list[j]]
        0 <= i < j < list.len() ==> !flow_before(list[j], list[i])
}

spec fn flow_order() -> spec_fn(Flow, Flow) -> bool {
    |a: Flow, b: Flow| flow_before(a@, b@)
}

proof fn lemma_flow_order_ranks()
    ensures
        sort::ranks(flow_order()),
{
    let rel = flow_order();
    assert forall|a: Flow, b: Flow, c: Flow|
        #![trigger rel(a, b), rel(b, c)]
        !rel(a, b) && !rel(b, c) implies !rel(a, c) by {
        let (x, y, z) = (a@.total_rate(), b@.total_rate(), c@.total_rate());
        crate::rate::lemma_below_ranks(z, y, x);
        if !x.below(z) {
            crate::rate::lemma_below_ranks(x, z, y);
            crate::rate::lemma_below_ranks(y, x, z);
        }
    }
}

fn flow_goes_before(a: &Flow, b: &Flow) -> (r: bool)
    ensures
        r == flow_before(a@, b@),
{
    let (x, y) = (a.total_rate(), b.total_rate());
    let p: u16 = match a.remote {
        Some(e) => e.port,
        None => 0,
    };
    let q: u16 = match b.remote {
        Some(e) => e.port,
        None => 0,
    };
    y.is_below(&x) || (!x.is_below(&y) && p < q)
}

impl Engine {
    /// The current per-process rows (unsorted; caller sorts/filters).
    pub fn rows(&self) -> (r: &[ProcRow])
        ensures
            row_views(r@) == self@.rows,
    {
        self.rows.as_slice()
    }

    /// All described flows belonging to `pid`, sorted by combined rate desc then
    /// remote port — for the expanded detail view.
    pub fn flows_for(&self, pid: u32) -> (r: Vec<Flow>)
        ensures
            is_detail(flow_seq(r@), self@.flows, pid),
    {
        let keys: Vec<u64> = keys_of(&self.flows);
        let mut v: Vec<Flow> = Vec::new();
        let ghost flows = self@.flows;
        let ghost mut picked: Seq<u64> = seq![];
        let mut i: usize = 0;
        while i < keys.len()
            invariant
                i <= keys@.len(),
                keys@.no_duplicates(),
                keys@.to_set() == self.flows@.dom(),
                flows == flow_views(self.flows@),
                picked.no_duplicates(),
                forall|k: u64| #[trigger]
                    picked.contains(k) <==> keys@.take(i as int).contains(k) && listed(
                        flows[k],
                        pid,
                    ),
                v@.len() == picked.len(),
                forall|j: int| 0 <= j < v@.len() ==> (#[trigger] v@[j])@ == flows[picked[j]],
            decreases keys@.len() - i,
        {
            let k: u64 = keys[i];
            let ghost was = picked;
            let ghost seen = keys@.take(i as int);
            proof {
                assert(keys@.to_set().contains(k));
                assert(keys@.take(i + 1) =~= seen.push(k));
                if seen.contains(k) {
                    let j = choose|j: int| 0 <= j < seen.len() && seen[j] == k;
                    assert(keys@[j] == keys@[i as int]);
                }
            }
            if let Some(f) = self.flows.get(&k) {
                if f.described && f.pid == pid {
                    v.push(f.clone());
                    proof {
                        assert(!was.contains(k));
                        picked = was.push(k);
                        assert forall|x: int, y: int|
                            0 <= x < picked.len() && 0 <= y < picked.len() && x != y implies picked[x]
                            != picked[y] by {
                            if x < was.len() {
                                assert(was.contains(was[x]));
                            }
                            if y < was.len() {
                                assert(was.contains(was[y]));
                            }
                        }
                    }
                }
            }
            assert forall|x: u64| #[trigger] picked.contains(x) <==> keys@.take(i + 1).contains(x)
                && listed(flows[x], pid) by {
                if seen.contains(x) {
                    let j = choose|j: int| 0 <= j < seen.len() && seen[j] == x;
                    assert(seen.push(k)[j] == x);
                }
                assert(seen.push(k)[i as int] == k);
                if was.contains(x) {
                    let j = choose|j: int| 0 <= j < was.len() && was[j] == x;
                    assert(was.push(k)[j] == x);
                }
                assert(was.push(k)[was.len() as int] == k);
                assert(was.contains(x) <==> seen.contains(x) && listed(flows[x], pid));
            }
            i += 1;
        }
        let ghost from = v@;
        proof {
            assert(keys@.take(keys@.len() as int) =~= keys@);
            assert forall|k: u64| #[trigger] picked.contains(k) <==> flows.contains_key(k)
                && listed(flows[k], pid) by {
                assert(keys@.contains(k) <==> keys@.to_set().contains(k));
            }
            lemma_flow_order_ranks();
        }
        let before = |a: &Flow, b: &Flow| -> (r: bool)
            ensures
                r == flow_before(a@, b@),
        {
            flow_goes_before(a, b)
        };
        sort::sort_by(&mut v, before, Ghost(flow_order()));
        proof {
            let at = choose|at: Seq<int>| #[trigger]
                sort::rearranged(from, v@, at) && sort::in_order(v@, at, flow_order());
            let ks = Seq::new(at.len(), |j: int| picked[at[j]]);
            assert(ks.no_duplicates()) by {
                assert forall|x: int, y: int| 0 <= x < ks.len() && 0 <= y < ks.len() && x != y
                    implies ks[x] != ks[y] by {
                    assert(at[x] != at[y]);
                }
            }
            assert forall|k: u64| #[trigger] ks.contains(k) <==> flows.contains_key(k) && listed(
                flows[k],
                pid,
            ) by {
                if ks.contains(k) {
                    let x = choose|x: int| 0 <= x < ks.len() && ks[x] == k;
                    assert(0 <= at[x] < picked.len());
                    assert(picked.contains(picked[at[x]]));
                }
                if picked.contains(k) {
                    let j = choose|j: int| 0 <= j < picked.len() && picked[j] == k;
                    sort::lemma_rearranged_onto(from, v@, at, j);
                    let x = choose|x: int| 0 <= x < at.len() && #[trigger] at[x] == j;
                    assert(ks[x] == k);
                }
            }
            assert(names_listed(ks, flows, pid));
            assert(flow_seq(v@) =~= ks.map_values(|k: u64| flows[k]));
            assert forall|i: int, j: int|
                #![trigger flow_seq(v@)[i], flow_seq(v@)[j]]
                0 <= i < j < v@.len() implies !flow_before(flow_seq(v@)[j], flow_seq(v@)[i]) by {
                let rel = flow_order();
                assert(!rel(v@[j], v@[i]));
            }
        }
        v
    }

    /// Total number of tracked flows (for the status line / `--diag`).
    pub fn flow_count(&self) -> (r: usize)
        ensures
            r == self@.flows.dom().len(),
    {
        assert(self@.flows.dom() =~= self.flows@.dom());
        self.flows.len()
    }
}

} // verus!
