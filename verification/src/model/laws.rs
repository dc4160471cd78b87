//! What holds of the engine as a whole, over any run of messages and ticks.

use vstd::prelude::*;

use super::engine::{
    carry, is_detail, lemma_live_counts, lemma_nothing_counted, lemma_sum_remove,
    lemma_tick_keeps_wf, listed, live, live_pids, measure, names_listed, sampled_flows, some_named,
    sum, EngineView, Measure,
};
use super::{capped, Flow, FlowView, ProcRow, Proto, RowView};
use crate::ntstat::wire::{Counts, FlowDescView};
use crate::rate::Rate;

verus! {

/// By how much `now` exceeds `before`, if it does.
pub open spec fn rise(now: u64, before: u64) -> nat {
    if now > before {
        (now - before) as nat
    } else {
        0
    }
}

/// The smaller of a number and the largest `u64`.
pub open spec fn within_u64(n: nat) -> nat {
    if n < 0xffff_ffff_ffff_ffff {
        n
    } else {
        0xffff_ffff_ffff_ffff
    }
}

/// The numbers of a sequence added up.
pub open spec fn added_up(s: Seq<nat>) -> nat
    decreases s.len(),
{
    if s.len() == 0 {
        0
    } else {
        added_up(s.drop_last()) + s.last()
    }
}

/// Whether `keys` names each described flow of the process just once.
pub open spec fn names_flows_of(keys: Seq<u64>, flows: Map<u64, FlowView>, pid: u32) -> bool {
    &&& keys.no_duplicates()
    &&& forall|k: u64| #[trigger]
        keys.contains(k) <==> flows.contains_key(k) && flows[k].described && flows[k].pid == pid
}

proof fn lemma_sum_adds_up(keys: Seq<u64>, flows: Map<u64, FlowView>, pid: u32, m: Measure)
    requires
        flows.dom().finite(),
        pid != 0,
        names_flows_of(keys, flows, pid),
    ensures
        sum(flows, pid, m) == added_up(
            Seq::new(keys.len(), |j: int| measure(flows[keys[j]], pid, m)),
        ),
    decreases keys.len(),
{
    let parts = Seq::new(keys.len(), |j: int| measure(flows[keys[j]], pid, m));
    if keys.len() == 0 {
        assert(!live(flows, pid)) by {
            if live(flows, pid) {
                let k = choose|k: u64| #[trigger] flows.contains_key(k) && flows[k].belongs(pid);
                assert(keys.contains(k));
            }
        }
        lemma_nothing_counted(flows, pid);
    } else {
        let k = keys.last();
        let front = keys.drop_last();
        let rest = flows.remove(k);
        assert(keys.contains(k));
        assert forall|x: u64| #[trigger] front.contains(x) <==> rest.contains_key(x)
            && rest[x].described && rest[x].pid == pid by {
            if front.contains(x) {
                let j = choose|j: int| 0 <= j < front.len() && front[j] == x;
                assert(keys[j] == x && keys[j] != keys[keys.len() - 1]);
                assert(keys.contains(x));
            }
            if rest.contains_key(x) && rest[x].described && rest[x].pid == pid {
                assert(keys.contains(x));
                let j = choose|j: int| 0 <= j < keys.len() && keys[j] == x;
                assert(front[j] == x);
            }
        }
        lemma_sum_adds_up(front, rest, pid, m);
        lemma_sum_remove(flows, k, pid, m);
        let front_parts = Seq::new(front.len(), |j: int| measure(rest[front[j]], pid, m));
        assert forall|j: int| 0 <= j < front.len() implies front_parts[j] == parts[j] by {
            assert(keys[j] != keys[keys.len() - 1]);
        }
        assert(parts.drop_last() =~= front_parts);
    }
}

/// A tick measures each flow by itself: what its counters rose by since the tick
/// before, nothing over no time and nothing right after a reprime, whatever the
/// flow's protocol.
pub proof fn law_tick_measures_each_flow(pre: EngineView, nanos: u64, post: EngineView, k: u64)
    requires
        pre.ticks_to(nanos, post),
        pre.flows.contains_key(k),
    ensures
        post.flows.contains_key(k),
        post.flows[k].span == nanos,
        nanos > 0 && !pre.rebase ==> post.flows[k].rx_delta == rise(
            pre.flows[k].rx_bytes,
            pre.flows[k].prev_rx,
        ) && post.flows[k].tx_delta == rise(pre.flows[k].tx_bytes, pre.flows[k].prev_tx),
        nanos == 0 || pre.rebase ==> post.flows[k].rx_delta == 0 && post.flows[k].tx_delta == 0,
        post.flows[k].prev_rx == pre.flows[k].rx_bytes,
        post.flows[k].prev_tx == pre.flows[k].tx_bytes,
{
    assert(post.flows[k] == pre.flows[k].sampled(nanos, pre.rebase));
}

/// A tick leaves what a flow is, and its counters, as they are, and neither adds
/// nor drops a flow.
pub proof fn law_tick_keeps_what_flows_are(pre: EngineView, nanos: u64, post: EngineView)
    requires
        pre.ticks_to(nanos, post),
    ensures
        post.flows.dom() == pre.flows.dom(),
        post.hist_len == pre.hist_len,
        !post.rebase,
        forall|k: u64| #[trigger]
            pre.flows.contains_key(k) ==> {
                &&& post.flows[k].pid == pre.flows[k].pid
                &&& post.flows[k].pname == pre.flows[k].pname
                &&& post.flows[k].proto == pre.flows[k].proto
                &&& post.flows[k].local == pre.flows[k].local
                &&& post.flows[k].remote == pre.flows[k].remote
                &&& post.flows[k].tcp_state == pre.flows[k].tcp_state
                &&& post.flows[k].described == pre.flows[k].described
                &&& post.flows[k].rx_bytes == pre.flows[k].rx_bytes
                &&& post.flows[k].tx_bytes == pre.flows[k].tx_bytes
            },
{
    assert(post.flows.dom() =~= pre.flows.dom());
    assert forall|k: u64| #[trigger] pre.flows.contains_key(k) implies post.flows[k]
        == pre.flows[k].sampled(nanos, pre.rebase) by {}
}

/// A row is what its process's flows add up to, each flow counted once and whole,
/// whatever its protocol: what the counters rose by in either direction, the bytes
/// so far with those of closed flows, and the number of flows.
pub proof fn law_row_adds_up_its_flows(
    pre: EngineView,
    nanos: u64,
    post: EngineView,
    i: int,
    keys: Seq<u64>,
)
    requires
        pre.wf(),
        pre.ticks_to(nanos, post),
        0 <= i < post.rows.len(),
        names_flows_of(keys, pre.flows, post.rows[i].pid),
    ensures
        ({
            let row = post.rows[i];
            let flow = |j: int| pre.flows[keys[j]];
            let carried = if pre.retired.contains_key(row.pid) {
                pre.retired[row.pid]
            } else {
                (0u64, 0u64)
            };
            &&& row.span == nanos
            &&& row.conns == keys.len()
            &&& nanos > 0 && !pre.rebase ==> row.rx_delta == added_up(
                Seq::new(keys.len(), |j: int| rise(flow(j).rx_bytes, flow(j).prev_rx)),
            )
            &&& nanos > 0 && !pre.rebase ==> row.tx_delta == added_up(
                Seq::new(keys.len(), |j: int| rise(flow(j).tx_bytes, flow(j).prev_tx)),
            )
            &&& nanos == 0 || pre.rebase ==> row.rx_delta == 0 && row.tx_delta == 0
            &&& row.rx_total == within_u64(
                added_up(Seq::new(keys.len(), |j: int| flow(j).rx_bytes as nat))
                    + carried.0 as nat,
            )
            &&& row.tx_total == within_u64(
                added_up(Seq::new(keys.len(), |j: int| flow(j).tx_bytes as nat))
                    + carried.1 as nat,
            )
        }),
{
    let row = post.rows[i];
    let pid = row.pid;
    assert(post.row_holds(row, nanos, pre.retired));
    assert(post.flows.dom() =~= pre.flows.dom());
    assert forall|k: u64| #[trigger] keys.contains(k) <==> post.flows.contains_key(k)
        && post.flows[k].described && post.flows[k].pid == pid by {
        if pre.flows.contains_key(k) {
            assert(post.flows[k] == pre.flows[k].sampled(nanos, pre.rebase));
        }
    }
    assert forall|j: int| 0 <= j < keys.len() implies post.flows[#[trigger] keys[j]]
        == pre.flows[keys[j]].sampled(nanos, pre.rebase) && pre.flows[keys[j]].belongs(pid) by {
        assert(keys.contains(keys[j]));
    }
    lemma_sum_adds_up(keys, post.flows, pid, Measure::RxDelta);
    lemma_sum_adds_up(keys, post.flows, pid, Measure::TxDelta);
    lemma_sum_adds_up(keys, post.flows, pid, Measure::RxBytes);
    lemma_sum_adds_up(keys, post.flows, pid, Measure::TxBytes);
    lemma_sum_adds_up(keys, post.flows, pid, Measure::Conns);
    let part = |m: Measure| Seq::new(keys.len(), |j: int| measure(post.flows[keys[j]], pid, m));
    lemma_ones(part(Measure::Conns));
    let flow = |j: int| pre.flows[keys[j]];
    if nanos > 0 && !pre.rebase {
        assert(part(Measure::RxDelta) =~= Seq::new(
            keys.len(),
            |j: int| rise(flow(j).rx_bytes, flow(j).prev_rx),
        ));
        assert(part(Measure::TxDelta) =~= Seq::new(
            keys.len(),
            |j: int| rise(flow(j).tx_bytes, flow(j).prev_tx),
        ));
    } else {
        lemma_zeros(part(Measure::RxDelta));
        lemma_zeros(part(Measure::TxDelta));
    }
    assert(part(Measure::RxBytes) =~= Seq::new(keys.len(), |j: int| flow(j).rx_bytes as nat));
    assert(part(Measure::TxBytes) =~= Seq::new(keys.len(), |j: int| flow(j).tx_bytes as nat));
}

proof fn lemma_ones(s: Seq<nat>)
    requires
        forall|i: int| 0 <= i < s.len() ==> s[i] == 1,
    ensures
        added_up(s) == s.len(),
    decreases s.len(),
{
    if s.len() > 0 {
        lemma_ones(s.drop_last());
    }
}

proof fn lemma_zeros(s: Seq<nat>)
    requires
        forall|i: int| 0 <= i < s.len() ==> s[i] == 0,
    ensures
        added_up(s) == 0,
    decreases s.len(),
{
    if s.len() > 0 {
        lemma_zeros(s.drop_last());
    }
}

/// A process with just one flow, be it TCP or UDP, has that flow's own rise in
/// its row, both down and up.
pub proof fn law_single_flow_is_its_row(
    pre: EngineView,
    nanos: u64,
    post: EngineView,
    i: int,
    k: u64,
)
    requires
        pre.wf(),
        pre.ticks_to(nanos, post),
        !pre.rebase,
        nanos > 0,
        0 <= i < post.rows.len(),
        pre.flows.contains_key(k),
        pre.flows[k].described,
        pre.flows[k].pid == post.rows[i].pid,
        forall|x: u64| #[trigger]
            pre.flows.contains_key(x) && pre.flows[x].described && pre.flows[x].pid
                == post.rows[i].pid ==> x == k,
    ensures
        post.rows[i].rx_delta == rise(pre.flows[k].rx_bytes, pre.flows[k].prev_rx),
        post.rows[i].tx_delta == rise(pre.flows[k].tx_bytes, pre.flows[k].prev_tx),
        post.rows[i].conns == 1,
{
    let keys = seq![k];
    assert forall|x: u64| #[trigger] keys.contains(x) <==> pre.flows.contains_key(x)
        && pre.flows[x].described && pre.flows[x].pid == post.rows[i].pid by {
        assert(keys[0] == k);
    }
    law_row_adds_up_its_flows(pre, nanos, post, i, keys);
    let rx = Seq::new(1, |j: int| rise(pre.flows[keys[j]].rx_bytes, pre.flows[keys[j]].prev_rx));
    let tx = Seq::new(1, |j: int| rise(pre.flows[keys[j]].tx_bytes, pre.flows[keys[j]].prev_tx));
    assert(rx.drop_last() =~= seq![] && tx.drop_last() =~= seq![]);
    reveal_with_fuel(added_up, 3);
    assert(added_up(rx) == rx[0] && added_up(tx) == tx[0]);
}

/// The table has one row for each process with a pid and a described flow, and
/// no other, and histories are kept for just those.
pub proof fn law_one_row_for_each_process(pre: EngineView, nanos: u64, post: EngineView, pid: u32)
    requires
        pre.ticks_to(nanos, post),
    ensures
        (exists|i: int| 0 <= i < post.rows.len() && (#[trigger] post.rows[i]).pid == pid) <==> pid
            != 0 && exists|k: u64| #[trigger]
            pre.flows.contains_key(k) && pre.flows[k].described && pre.flows[k].pid == pid,
        forall|i: int, j: int|
            #![trigger post.rows[i], post.rows[j]]
            0 <= i < post.rows.len() && 0 <= j < post.rows.len() && i != j ==> post.rows[i].pid
                != post.rows[j].pid,
        post.hist.contains_key(pid) <==> pid != 0 && exists|k: u64| #[trigger]
            pre.flows.contains_key(k) && pre.flows[k].described && pre.flows[k].pid == pid,
{
    assert(post.flows.dom() =~= pre.flows.dom());
    if exists|i: int| 0 <= i < post.rows.len() && (#[trigger] post.rows[i]).pid == pid {
        let i = choose|i: int| 0 <= i < post.rows.len() && (#[trigger] post.rows[i]).pid == pid;
        assert(post.row_holds(post.rows[i], nanos, pre.retired));
        let k = choose|k: u64| #[trigger] post.flows.contains_key(k) && post.flows[k].belongs(pid);
        assert(pre.flows.contains_key(k));
        assert(post.flows[k] == pre.flows[k].sampled(nanos, pre.rebase));
    }
    if pid != 0 && exists|k: u64| #[trigger]
        pre.flows.contains_key(k) && pre.flows[k].described && pre.flows[k].pid == pid {
        let k = choose|k: u64| #[trigger]
            pre.flows.contains_key(k) && pre.flows[k].described && pre.flows[k].pid == pid;
        assert(post.flows.contains_key(k));
        assert(post.flows[k] == pre.flows[k].sampled(nanos, pre.rebase));
        assert(post.flows[k].belongs(pid));
        assert(live(post.flows, pid));
    }
}

/// A process is shown by a name that one of its flows carries, and by its pid
/// only if none carries any.
pub proof fn law_rows_are_named_by_their_flows(
    pre: EngineView,
    nanos: u64,
    post: EngineView,
    i: int,
    k: u64,
)
    requires
        pre.ticks_to(nanos, post),
        0 <= i < post.rows.len(),
    ensures
        pre.flows.contains_key(k) && pre.flows[k].described && pre.flows[k].pid
            == post.rows[i].pid && pre.flows[k].pname.len() > 0 ==> exists|j: u64| #[trigger]
            pre.flows.contains_key(j) && pre.flows[j].described && pre.flows[j].pid
                == post.rows[i].pid && pre.flows[j].pname == post.rows[i].name,
        (forall|j: u64| #[trigger]
            pre.flows.contains_key(j) && pre.flows[j].described && pre.flows[j].pid
                == post.rows[i].pid ==> pre.flows[j].pname.len() == 0) ==> post.rows[i].name
            == seq!['p', 'i', 'd', ' '] + crate::text::decimal(post.rows[i].pid as nat),
        post.rows[i].name.len() > 0,
{
    let row = post.rows[i];
    let pid = row.pid;
    assert(post.row_holds(row, nanos, pre.retired));
    assert(post.flows.dom() =~= pre.flows.dom());
    assert forall|j: u64| #[trigger] pre.flows.contains_key(j) implies post.flows[j]
        == pre.flows[j].sampled(nanos, pre.rebase) by {}
    reveal_strlit("pid ");
    assert("pid "@ =~= seq!['p', 'i', 'd', ' ']);
    if some_named(post.flows, pid) {
        let j = choose|j: u64| #[trigger]
            post.flows.contains_key(j) && post.flows[j].belongs(pid) && post.flows[j].pname
                == row.name;
        assert(pre.flows.contains_key(j) && pre.flows[j].pname == row.name);
    } else if pre.flows.contains_key(k) && pre.flows[k].described && pre.flows[k].pid == pid
        && pre.flows[k].pname.len() > 0 {
        let l = choose|l: u64| #[trigger] post.flows.contains_key(l) && post.flows[l].belongs(pid);
        assert(post.flows.contains_key(k) && post.flows[k].belongs(pid));
        assert(some_named(post.flows, pid));
    }
}

/// Each tick adds one sample to a process's history, its rate in whole bytes per
/// second, and otherwise keeps the newest samples in their order.
pub proof fn law_history_gains_the_rate(pre: EngineView, nanos: u64, post: EngineView, i: int)
    requires
        pre.wf(),
        pre.ticks_to(nanos, post),
        0 <= i < post.rows.len(),
    ensures
        ({
            let row = post.rows[i];
            let was = if pre.hist.contains_key(row.pid) {
                pre.hist[row.pid]
            } else {
                super::engine::HistView { rx: seq![], tx: seq![] }
            };
            let (down, up) = (row.rx_hist, row.tx_hist);
            &&& down.len() == up.len()
            &&& down.len() == if was.rx.len() < pre.hist_len {
                (was.rx.len() + 1) as nat
            } else {
                pre.hist_len
            }
            &&& nanos > 0 ==> down.last() == within_u64(
                row.rx_delta as nat * 1_000_000_000 / nanos as nat,
            )
            &&& nanos > 0 ==> up.last() == within_u64(
                row.tx_delta as nat * 1_000_000_000 / nanos as nat,
            )
            &&& nanos == 0 ==> down.last() == 0 && up.last() == 0
            &&& forall|j: int|
                1 <= j < down.len() ==> down[down.len() - 1 - j] == #[trigger] was.rx[was.rx.len()
                    - j] && up[up.len() - 1 - j] == was.tx[was.tx.len() - j]
            &&& post.hist[row.pid].rx == down && post.hist[row.pid].tx == up
        }),
{
    let row = post.rows[i];
    assert(post.row_holds(row, nanos, pre.retired));
    lemma_tick_keeps_wf(pre, nanos, post);
    assert(live(post.flows, row.pid));
    assert(0 * 1_000_000_000 / 1 == 0);
}

/// A descriptor gives the flow just what it says, keeps its counters, and touches
/// nothing else.
pub proof fn law_descriptor_says_what_the_flow_is(
    v: EngineView,
    srcref: u64,
    proto: Proto,
    desc: FlowDescView,
)
    ensures
        ({
            let after = v.described(srcref, proto, desc);
            let f = after.flows[srcref];
            &&& after.flows.contains_key(srcref)
            &&& f.pid == desc.pid
            &&& f.pname == desc.pname
            &&& f.local == desc.local
            &&& f.remote == desc.remote
            &&& f.tcp_state == desc.tcp_state
            &&& f.proto == proto
            &&& f.described
            &&& v.flows.contains_key(srcref) ==> same_counters(f, v.flows[srcref])
            &&& !v.flows.contains_key(srcref) ==> no_counters(f)
            &&& only_the_flow_changed(v, after, srcref)
        }),
{
}

/// Whether two flows have moved the same.
pub open spec fn same_counters(f: FlowView, g: FlowView) -> bool {
    &&& f.rx_bytes == g.rx_bytes && f.tx_bytes == g.tx_bytes
    &&& f.prev_rx == g.prev_rx && f.prev_tx == g.prev_tx
    &&& f.rx_delta == g.rx_delta && f.tx_delta == g.tx_delta && f.span == g.span
}

/// Whether a flow has not moved at all.
pub open spec fn no_counters(f: FlowView) -> bool {
    &&& f.rx_bytes == 0 && f.tx_bytes == 0
    &&& f.prev_rx == 0 && f.prev_tx == 0
    &&& f.rx_delta == 0 && f.tx_delta == 0 && f.span == 0
}

/// Whether two flows are the same connection of the same process.
pub open spec fn same_identity(f: FlowView, g: FlowView) -> bool {
    &&& f.pid == g.pid && f.pname == g.pname
    &&& f.local == g.local && f.remote == g.remote
    &&& f.tcp_state == g.tcp_state && f.described == g.described
}

/// Whether nothing is known yet of whose connection the flow is.
pub open spec fn no_identity(f: FlowView) -> bool {
    &&& f.pid == 0 && f.pname.len() == 0
    &&& f.local is None && f.remote is None
    &&& f.tcp_state == 0 && !f.described
}

/// Whether all but the flow `srcref` is as it was.
pub open spec fn only_the_flow_changed(v: EngineView, after: EngineView, srcref: u64) -> bool {
    &&& after.flows.dom() == v.flows.dom().insert(srcref)
    &&& forall|k: u64| #[trigger]
        v.flows.contains_key(k) && k != srcref ==> after.flows[k] == v.flows[k]
    &&& after.hist == v.hist
    &&& after.retired == v.retired
    &&& after.rows == v.rows
    &&& after.hist_len == v.hist_len
    &&& after.rebase == v.rebase
}

/// Fresh counters replace the flow's own and touch nothing else: neither what the
/// flow is nor what the next tick measures against. A flow that is not known yet
/// starts with them.
pub proof fn law_counters_replace_counters(v: EngineView, srcref: u64, counts: Counts)
    ensures
        ({
            let after = v.counted(srcref, counts);
            let f = after.flows[srcref];
            &&& after.flows.contains_key(srcref)
            &&& f.rx_bytes == counts.rx_bytes
            &&& f.tx_bytes == counts.tx_bytes
            &&& v.flows.contains_key(srcref) ==> {
                let g = v.flows[srcref];
                &&& same_identity(f, g) && f.proto == g.proto
                &&& f.prev_rx == g.prev_rx && f.prev_tx == g.prev_tx
                &&& f.rx_delta == g.rx_delta && f.tx_delta == g.tx_delta && f.span == g.span
            }
            &&& !v.flows.contains_key(srcref) ==> no_identity(f) && f.prev_rx == 0 && f.prev_tx == 0
                && f.rx_delta == 0 && f.tx_delta == 0 && f.span == 0 && f.proto == Proto::Tcp
            &&& only_the_flow_changed(v, after, srcref)
        }),
{
}

/// A new source has its protocol; one that is known already keeps the rest.
pub proof fn law_source_has_its_protocol(v: EngineView, srcref: u64, proto: Proto)
    ensures
        ({
            let after = v.added(srcref, proto);
            let f = after.flows[srcref];
            &&& after.flows.contains_key(srcref)
            &&& f.proto == proto
            &&& v.flows.contains_key(srcref) ==> same_identity(f, v.flows[srcref])
                && same_counters(f, v.flows[srcref])
            &&& !v.flows.contains_key(srcref) ==> no_identity(f) && no_counters(f)
            &&& only_the_flow_changed(v, after, srcref)
        }),
{
}

/// A bundled update does what its descriptor and then its counters would do one
/// by one.
pub proof fn law_update_is_descriptor_and_counters(
    v: EngineView,
    srcref: u64,
    proto: Proto,
    counts: Counts,
    desc: FlowDescView,
)
    ensures
        ({
            let f = v.updated(srcref, proto, counts, Some(desc)).flows[srcref];
            &&& f.pid == desc.pid && f.pname == desc.pname
            &&& f.local == desc.local && f.remote == desc.remote
            &&& f.tcp_state == desc.tcp_state && f.proto == proto && f.described
            &&& f.rx_bytes == counts.rx_bytes && f.tx_bytes == counts.tx_bytes
            &&& v.flows.contains_key(srcref) ==> f.prev_rx == v.flows[srcref].prev_rx && f.prev_tx
                == v.flows[srcref].prev_tx
        }),
        v.updated(srcref, proto, counts, Some(desc)) == v.described(srcref, proto, desc).counted(
            srcref,
            counts,
        ),
        v.updated(srcref, proto, counts, None) == v.counted(srcref, counts),
        only_the_flow_changed(v, v.updated(srcref, proto, counts, Some(desc)), srcref),
{
    assert(v.updated(srcref, proto, counts, Some(desc)).flows.dom() =~= v.flows.dom().insert(
        srcref,
    ));
}

/// A source that goes away takes only itself along: the bytes of a described flow
/// are carried for its process, in either direction, and those of any other
/// process stay.
pub proof fn law_removed_flow_is_carried(v: EngineView, srcref: u64, pid: u32)
    ensures
        ({
            let after = v.removed(srcref);
            let f = v.flows[srcref];
            let (rx, tx) = if v.retired.contains_key(pid) {
                v.retired[pid]
            } else {
                (0u64, 0u64)
            };
            &&& after.flows == v.flows.remove(srcref)
            &&& after.hist == v.hist && after.rows == v.rows
            &&& after.hist_len == v.hist_len && after.rebase == v.rebase
            &&& if v.flows.contains_key(srcref) && f.described && f.pid == pid && pid != 0 {
                &&& after.retired.contains_key(pid)
                &&& after.retired[pid].0 == within_u64((rx + f.rx_bytes) as nat)
                &&& after.retired[pid].1 == within_u64((tx + f.tx_bytes) as nat)
            } else {
                &&& after.retired.contains_key(pid) == v.retired.contains_key(pid)
                &&& v.retired.contains_key(pid) ==> after.retired[pid] == v.retired[pid]
            }
        }),
{
    if !v.flows.contains_key(srcref) {
        assert(v.flows.remove(srcref) =~= v.flows);
    }
}

/// A tick keeps the bytes carried for just the processes that still have a
/// described flow.
pub proof fn law_tick_prunes_the_carry(pre: EngineView, nanos: u64, post: EngineView, pid: u32)
    requires
        pre.ticks_to(nanos, post),
    ensures
        post.retired.contains_key(pid) <==> pre.retired.contains_key(pid) && pid != 0
            && exists|k: u64| #[trigger]
            pre.flows.contains_key(k) && pre.flows[k].described && pre.flows[k].pid == pid,
        post.retired.contains_key(pid) ==> post.retired[pid] == pre.retired[pid],
{
    law_one_row_for_each_process(pre, nanos, post, pid);
    assert(live_pids(post.flows).contains(pid) <==> live(post.flows, pid));
    assert(post.flows.dom() =~= pre.flows.dom());
    if live(post.flows, pid) {
        let i = choose|i: int| 0 <= i < post.rows.len() && (#[trigger] post.rows[i]).pid == pid;
        assert(post.rows[i].pid == pid);
    }
    if exists|i: int| 0 <= i < post.rows.len() && (#[trigger] post.rows[i]).pid == pid {
        let i = choose|i: int| 0 <= i < post.rows.len() && (#[trigger] post.rows[i]).pid == pid;
        assert(post.row_holds(post.rows[i], nanos, pre.retired));
    }
}

/// An engine starts without flows, rows, histories or carried bytes.
pub proof fn law_fresh_engine_is_empty(hist_len: nat)
    ensures
        ({
            let v = EngineView::fresh(hist_len);
            &&& v.flows.dom() == Set::<u64>::empty()
            &&& v.hist.dom() == Set::<u32>::empty()
            &&& v.retired.dom() == Set::<u32>::empty()
            &&& v.rows.len() == 0
            &&& v.hist_len == hist_len
            &&& !v.rebase
        }),
{
}

/// The detail view lists each described flow of the process once, and no other.
pub proof fn law_detail_lists_the_flows(
    list: Seq<FlowView>,
    flows: Map<u64, FlowView>,
    pid: u32,
    keys: Seq<u64>,
)
    requires
        is_detail(list, flows, pid),
        names_flows_of(keys, flows, pid),
    ensures
        list.len() == keys.len(),
        forall|i: int|
            0 <= i < list.len() ==> (#[trigger] list[i]).described && list[i].pid == pid
                && exists|k: u64| #[trigger] flows.contains_key(k) && flows[k] == list[i],
        forall|k: u64| #[trigger]
            flows.contains_key(k) && flows[k].described && flows[k].pid == pid ==> list.contains(
                flows[k],
            ),
{
    let named = choose|named: Seq<u64>| #[trigger]
        names_listed(named, flows, pid) && list =~= named.map_values(|k: u64| flows[k]);
    assert forall|k: u64| #[trigger] named.contains(k) <==> keys.contains(k) by {}
    named.unique_seq_to_set();
    keys.unique_seq_to_set();
    assert(named.to_set() =~= keys.to_set());
    assert forall|i: int| 0 <= i < list.len() implies (#[trigger] list[i]).described && list[i].pid
        == pid && exists|k: u64| #[trigger] flows.contains_key(k) && flows[k] == list[i] by {
        assert(named.contains(named[i]));
        assert(flows.contains_key(named[i]) && flows[named[i]] == list[i]);
    }
    assert forall|k: u64| #[trigger]
        flows.contains_key(k) && flows[k].described && flows[k].pid == pid implies list.contains(
        flows[k],
    ) by {
        assert(named.contains(k));
        let j = choose|j: int| 0 <= j < named.len() && named[j] == k;
        assert(list[j] == flows[k]);
    }
}

/// The detail view puts the busier flow first, by what it moved down and up
/// together per time, and of two that are equally busy the one with the lower
/// remote port. A flow that no tick has measured yet counts as idle.
pub proof fn law_detail_is_busiest_first(
    list: Seq<FlowView>,
    flows: Map<u64, FlowView>,
    pid: u32,
    i: int,
    j: int,
)
    requires
        is_detail(list, flows, pid),
        0 <= i < j < list.len(),
    ensures
        ({
            let (f, g) = (list[i], list[j]);
            let moved = |f: FlowView|
                if f.span == 0 {
                    0
                } else {
                    f.rx_delta + f.tx_delta
                };
            let time = |f: FlowView|
                if f.span == 0 {
                    1
                } else {
                    f.span as int
                };
            let port = |f: FlowView|
                if f.remote is Some {
                    (f.remote->0).port as int
                } else {
                    0
                };
            &&& moved(f) * time(g) >= moved(g) * time(f)
            &&& moved(f) * time(g) == moved(g) * time(f) ==> port(f) <= port(g)
        }),
{
    assert(!super::engine::flow_before(list[j], list[i]));
}

/// Of two flows measured by one tick the one that moved more goes first.
pub proof fn law_detail_goes_by_bytes_moved(
    list: Seq<FlowView>,
    flows: Map<u64, FlowView>,
    pid: u32,
    i: int,
    j: int,
)
    requires
        is_detail(list, flows, pid),
        0 <= i < j < list.len(),
        list[i].span == list[j].span,
        list[i].span > 0,
    ensures
        list[i].rx_delta + list[i].tx_delta >= list[j].rx_delta + list[j].tx_delta,
{
    law_detail_is_busiest_first(list, flows, pid, i, j);
    let (x, y, s) = (
        (list[i].rx_delta + list[i].tx_delta) as int,
        (list[j].rx_delta + list[j].tx_delta) as int,
        list[i].span as int,
    );
    assert(x < y ==> x * s < y * s) by (nonlinear_arith)
        requires
            s > 0,
    ;
}

/// Rows and flows keep their number and order in ghost code.
pub proof fn law_lists_are_faithful(
    rows: Seq<ProcRow>,
    flows: Seq<Flow>,
    map: Map<u64, Flow>,
    i: int,
    k: u64,
)
    ensures
        super::row_views(rows).len() == rows.len(),
        0 <= i < rows.len() ==> super::row_views(rows)[i] == rows[i]@,
        super::flow_seq(flows).len() == flows.len(),
        0 <= i < flows.len() ==> super::flow_seq(flows)[i] == flows[i]@,
        super::flow_views(map).dom() == map.dom(),
        map.contains_key(k) ==> super::flow_views(map)[k] == map[k]@,
{
    assert(super::flow_views(map).dom() =~= map.dom());
}

/// What a flow, and a row, say in ghost code is what they hold.
pub proof fn law_views_are_faithful(f: Flow, r: ProcRow)
    ensures
        ({
            let v = f@;
            &&& v.pid == f.pid && v.pname == f.pname@ && v.proto == f.proto
            &&& v.local == f.local && v.remote == f.remote && v.tcp_state == f.tcp_state
            &&& v.rx_bytes == f.rx_bytes && v.tx_bytes == f.tx_bytes
            &&& v.prev_rx == f.prev_rx && v.prev_tx == f.prev_tx
            &&& v.rx_delta == f.rx_delta && v.tx_delta == f.tx_delta
            &&& v.span == f.span && v.described == f.described
        }),
        ({
            let v = r@;
            &&& v.pid == r.pid && v.name == r.name@ && v.span == r.span && v.conns == r.conns
            &&& v.rx_delta == r.rx_delta && v.tx_delta == r.tx_delta
            &&& v.rx_total == r.rx_total && v.tx_total == r.tx_total
            &&& v.rx_hist == r.rx_hist@ && v.tx_hist == r.tx_hist@
        }),
{
}

/// The rates of a flow and of a row are their bytes over their span, each
/// direction by itself, and the combined rate has those of both.
pub proof fn law_rates_are_bytes_over_span(f: FlowView, r: RowView)
    ensures
        f.rx_rate().bytes == f.rx_delta && f.rx_rate().nanos == f.span,
        f.tx_rate().bytes == f.tx_delta && f.tx_rate().nanos == f.span,
        f.total_rate().bytes == f.rx_delta + f.tx_delta && f.total_rate().nanos == f.span,
        r.rx_rate().bytes == r.rx_delta && r.rx_rate().nanos == r.span,
        r.tx_rate().bytes == r.tx_delta && r.tx_rate().nanos == r.span,
        r.rx_delta + r.tx_delta <= u128::MAX ==> r.total_rate().bytes == r.rx_delta + r.tx_delta,
        r.rx_delta + r.tx_delta > u128::MAX ==> r.total_rate().bytes == u128::MAX,
        r.total_rate().nanos == r.span,
        r.total_bytes() == within_u64((r.rx_total + r.tx_total) as nat),
{
}

/// A tick changes no flow's process or counters, so every sum over those stays.
proof fn lemma_sum_sampled(flows: Map<u64, FlowView>, nanos: u64, rebase: bool, pid: u32, m: Measure)
    requires
        flows.dom().finite(),
        m is RxBytes || m is TxBytes || m is Conns,
    ensures
        sum(sampled_flows(flows, nanos, rebase), pid, m) == sum(flows, pid, m),
    decreases flows.dom().len(),
{
    let after = sampled_flows(flows, nanos, rebase);
    assert(after.dom() =~= flows.dom());
    if flows.dom().len() > 0 {
        let k = flows.dom().choose();
        assert(flows.contains_key(k));
        lemma_sum_sampled(flows.remove(k), nanos, rebase, pid, m);
        lemma_sum_remove(after, k, pid, m);
        assert(after.remove(k) =~= sampled_flows(flows.remove(k), nanos, rebase));
    }
}

/// A sum to which no flow adds anything is zero.
proof fn lemma_sum_zero(flows: Map<u64, FlowView>, pid: u32, m: Measure)
    requires
        flows.dom().finite(),
        forall|k: u64| #[trigger] flows.contains_key(k) ==> measure(flows[k], pid, m) == 0,
    ensures
        sum(flows, pid, m) == 0,
    decreases flows.dom().len(),
{
    if flows.dom().len() > 0 {
        let k = flows.dom().choose();
        assert(flows.contains_key(k));
        assert forall|j: u64| #[trigger] flows.remove(k).contains_key(j) implies measure(
            flows.remove(k)[j],
            pid,
            m,
        ) == 0 by {
            assert(flows.contains_key(j));
        }
        lemma_sum_zero(flows.remove(k), pid, m);
    }
}

/// What the process has moved down and up, as far as the engine remembers: over
/// its flows, and carried from those that have closed.
pub open spec fn totals(v: EngineView, pid: u32) -> (u64, u64) {
    (
        capped(sum(v.flows, pid, Measure::RxBytes) + carry(v.retired, pid).0 as nat),
        capped(sum(v.flows, pid, Measure::TxBytes) + carry(v.retired, pid).1 as nat),
    )
}

/// Replacing the flow `k` changes a sum by what the flow adds to it.
proof fn lemma_sum_replace(flows: Map<u64, FlowView>, k: u64, f: FlowView, pid: u32, m: Measure)
    requires
        flows.dom().finite(),
    ensures
        sum(flows.insert(k, f), pid, m) == measure(f, pid, m) + sum(flows.remove(k), pid, m),
        flows.contains_key(k) ==> sum(flows, pid, m) == measure(flows[k], pid, m) + sum(
            flows.remove(k),
            pid,
            m,
        ),
        !flows.contains_key(k) ==> sum(flows, pid, m) == sum(flows.remove(k), pid, m),
{
    let more = flows.insert(k, f);
    lemma_sum_remove(more, k, pid, m);
    assert(more.remove(k) =~= flows.remove(k));
    if flows.contains_key(k) {
        lemma_sum_remove(flows, k, pid, m);
    } else {
        assert(flows.remove(k) =~= flows);
    }
}

/// A process's totals never shrink: not when a source appears, not when counters
/// that only grow come in, and not when a flow closes.
pub proof fn law_totals_never_shrink(
    v: EngineView,
    srcref: u64,
    proto: Proto,
    counts: Counts,
    pid: u32,
)
    requires
        v.wf(),
        v.flows.contains_key(srcref) ==> v.flows[srcref].rx_bytes <= counts.rx_bytes
            && v.flows[srcref].tx_bytes <= counts.tx_bytes,
    ensures
        totals(v.added(srcref, proto), pid) == totals(v, pid),
        totals(v.counted(srcref, counts), pid).0 >= totals(v, pid).0,
        totals(v.counted(srcref, counts), pid).1 >= totals(v, pid).1,
        totals(v.removed(srcref), pid) == totals(v, pid),
{
    let a = v.added(srcref, proto).flows[srcref];
    let c = v.counted(srcref, counts).flows[srcref];
    lemma_sum_replace(v.flows, srcref, a, pid, Measure::RxBytes);
    lemma_sum_replace(v.flows, srcref, a, pid, Measure::TxBytes);
    lemma_sum_replace(v.flows, srcref, c, pid, Measure::RxBytes);
    lemma_sum_replace(v.flows, srcref, c, pid, Measure::TxBytes);
}

/// A tick leaves the totals of every process that has a flow as they are, and
/// shows them in its row.
pub proof fn law_tick_shows_the_totals(
    pre: EngineView,
    nanos: u64,
    post: EngineView,
    pid: u32,
    i: int,
)
    requires
        pre.wf(),
        pre.ticks_to(nanos, post),
        live(post.flows, pid),
        0 <= i < post.rows.len(),
        post.rows[i].pid == pid,
    ensures
        totals(post, pid) == totals(pre, pid),
        (post.rows[i].rx_total, post.rows[i].tx_total) == totals(pre, pid),
{
    assert(post.row_holds(post.rows[i], nanos, pre.retired));
    assert(live_pids(post.flows).contains(pid));
    lemma_sum_sampled(pre.flows, nanos, pre.rebase, pid, Measure::RxBytes);
    lemma_sum_sampled(pre.flows, nanos, pre.rebase, pid, Measure::TxBytes);
}

/// The TOTAL of a process that stays in the table does not change when a flow
/// closes, be it one of its own or another's.
pub proof fn law_total_survives_a_closed_flow(
    pre: EngineView,
    first: u64,
    mid: EngineView,
    closed: u64,
    second: u64,
    post: EngineView,
    i: int,
    j: int,
)
    requires
        pre.wf(),
        pre.ticks_to(first, mid),
        mid.removed(closed).ticks_to(second, post),
        0 <= i < mid.rows.len(),
        0 <= j < post.rows.len(),
        mid.rows[i].pid == post.rows[j].pid,
    ensures
        post.rows[j].rx_total == mid.rows[i].rx_total,
        post.rows[j].tx_total == mid.rows[i].tx_total,
{
    let pid = mid.rows[i].pid;
    let cut = mid.removed(closed);
    lemma_tick_keeps_wf(pre, first, mid);
    assert(mid.row_holds(mid.rows[i], first, pre.retired));
    assert(post.row_holds(post.rows[j], second, cut.retired));
    law_tick_shows_the_totals(pre, first, mid, pid, i);
    let now = mid.flows[closed];
    law_totals_never_shrink(
        mid,
        closed,
        Proto::Tcp,
        Counts { rx_bytes: now.rx_bytes, tx_bytes: now.tx_bytes },
        pid,
    );
    assert(cut.wf());
    law_tick_shows_the_totals(cut, second, post, pid, j);
}

/// Once a process has no flow left, a tick forgets it: no row, no history, and
/// no bytes carried that a later process of the same pid could inherit.
pub proof fn law_gone_process_leaves_nothing(pre: EngineView, nanos: u64, post: EngineView, pid: u32)
    requires
        pre.ticks_to(nanos, post),
        !live(post.flows, pid),
    ensures
        carry(post.retired, pid) == (0u64, 0u64),
        !post.hist.contains_key(pid),
        forall|i: int| 0 <= i < post.rows.len() ==> (#[trigger] post.rows[i]).pid != pid,
{
    assert forall|i: int| 0 <= i < post.rows.len() implies (#[trigger] post.rows[i]).pid != pid by {
        assert(post.row_holds(post.rows[i], nanos, pre.retired));
    }
}

/// Bytes are carried only for processes that have a flow.
pub proof fn law_carry_is_bounded(pre: EngineView, nanos: u64, post: EngineView)
    requires
        pre.ticks_to(nanos, post),
    ensures
        forall|p: u32| #[trigger] post.retired.contains_key(p) ==> live(post.flows, p),
{
}

/// A flow that no descriptor has named yet, or one without a pid, is never
/// shown: every row stands for a process with a pid and a described flow.
pub proof fn law_only_described_flows_show(pre: EngineView, nanos: u64, post: EngineView, i: int)
    requires
        pre.ticks_to(nanos, post),
        0 <= i < post.rows.len(),
    ensures
        post.rows[i].pid != 0,
        exists|k: u64| #[trigger]
            post.flows.contains_key(k) && post.flows[k].described && post.flows[k].pid
                == post.rows[i].pid,
{
    assert(post.row_holds(post.rows[i], nanos, pre.retired));
    let k = choose|k: u64| #[trigger]
        post.flows.contains_key(k) && post.flows[k].belongs(post.rows[i].pid);
    assert(post.flows.contains_key(k) && post.flows[k].described);
}

/// Once a descriptor with a pid has named a flow, the next tick shows its
/// process.
pub proof fn law_described_flow_shows(
    pre: EngineView,
    srcref: u64,
    proto: Proto,
    desc: FlowDescView,
    nanos: u64,
    post: EngineView,
)
    requires
        desc.pid != 0,
        pre.described(srcref, proto, desc).ticks_to(nanos, post),
    ensures
        exists|i: int| 0 <= i < post.rows.len() && (#[trigger] post.rows[i]).pid == desc.pid,
{
    assert(post.flows.contains_key(srcref) && post.flows[srcref].belongs(desc.pid));
    assert(live(post.flows, desc.pid));
}

/// A process is in the table just as long as it has a connection: every row
/// counts at least one, and a process without a row has none.
pub proof fn law_rows_have_connections(pre: EngineView, nanos: u64, post: EngineView, pid: u32)
    requires
        pre.wf(),
        pre.ticks_to(nanos, post),
    ensures
        sum(post.flows, pid, Measure::Conns) > 0 <==> exists|i: int|
            0 <= i < post.rows.len() && (#[trigger] post.rows[i]).pid == pid,
        forall|i: int| 0 <= i < post.rows.len() ==> (#[trigger] post.rows[i]).conns > 0,
{
    lemma_tick_keeps_wf(pre, nanos, post);
    lemma_live_counts(post.flows, pid);
    assert forall|i: int| 0 <= i < post.rows.len() implies (#[trigger] post.rows[i]).conns > 0 by {
        assert(post.row_holds(post.rows[i], nanos, pre.retired));
        lemma_live_counts(post.flows, post.rows[i].pid);
    }
    if exists|i: int| 0 <= i < post.rows.len() && (#[trigger] post.rows[i]).pid == pid {
        let i = choose|i: int| 0 <= i < post.rows.len() && (#[trigger] post.rows[i]).pid == pid;
        assert(post.row_holds(post.rows[i], nanos, pre.retired));
    }
}

/// A flow's rate is the growth of its counters between two ticks, over the time
/// between them; a counter that went backwards counts as no growth.
pub proof fn law_rate_is_growth_over_time(
    pre: EngineView,
    first: u64,
    mid: EngineView,
    srcref: u64,
    counts: Counts,
    second: u64,
    post: EngineView,
)
    requires
        pre.ticks_to(first, mid),
        mid.flows.contains_key(srcref),
        mid.counted(srcref, counts).ticks_to(second, post),
        second > 0,
    ensures
        post.flows[srcref].rx_rate() == (Rate {
            bytes: rise(counts.rx_bytes, mid.flows[srcref].rx_bytes) as u128,
            nanos: second,
        }),
        post.flows[srcref].tx_rate() == (Rate {
            bytes: rise(counts.tx_bytes, mid.flows[srcref].tx_bytes) as u128,
            nanos: second,
        }),
        post.flows[srcref].total_rate() == (Rate {
            bytes: (rise(counts.rx_bytes, mid.flows[srcref].rx_bytes) + rise(
                counts.tx_bytes,
                mid.flows[srcref].tx_bytes,
            )) as u128,
            nanos: second,
        }),
{
    let now = mid.counted(srcref, counts);
    assert(mid.flows[srcref] == pre.flows[srcref].sampled(first, pre.rebase));
    assert(post.flows[srcref] == now.flows[srcref].sampled(second, now.rebase));
}

/// Without fresh counters since the last tick every process is idle.
pub proof fn law_no_news_is_no_rate(
    pre: EngineView,
    first: u64,
    mid: EngineView,
    second: u64,
    post: EngineView,
    i: int,
)
    requires
        pre.wf(),
        pre.ticks_to(first, mid),
        mid.ticks_to(second, post),
        0 <= i < post.rows.len(),
    ensures
        post.rows[i].rx_delta == 0,
        post.rows[i].tx_delta == 0,
{
    assert(post.row_holds(post.rows[i], second, mid.retired));
    assert(post.flows.dom() =~= pre.flows.dom());
    assert forall|k: u64| #[trigger] post.flows.contains_key(k) implies post.flows[k].rx_delta == 0
        && post.flows[k].tx_delta == 0 by {
        assert(pre.flows.contains_key(k) && mid.flows.contains_key(k));
        assert(mid.flows[k] == pre.flows[k].sampled(first, pre.rebase));
        assert(post.flows[k] == mid.flows[k].sampled(second, mid.rebase));
    }
    lemma_sum_zero(post.flows, post.rows[i].pid, Measure::RxDelta);
    lemma_sum_zero(post.flows, post.rows[i].pid, Measure::TxDelta);
}

/// After a reprime the next tick shows no rate, however long the gap and however
/// much the counters have moved, and takes the counters as the new reference.
pub proof fn law_reprime_swallows_the_gap(pre: EngineView, nanos: u64, post: EngineView, i: int)
    requires
        pre.wf(),
        pre.rebase,
        pre.ticks_to(nanos, post),
        0 <= i < post.rows.len(),
    ensures
        post.rows[i].rx_delta == 0,
        post.rows[i].tx_delta == 0,
        !post.rebase,
        forall|k: u64| #[trigger]
            pre.flows.contains_key(k) ==> post.flows[k].prev_rx == pre.flows[k].rx_bytes
                && post.flows[k].prev_tx == pre.flows[k].tx_bytes,
{
    assert(post.row_holds(post.rows[i], nanos, pre.retired));
    assert(post.flows.dom() =~= pre.flows.dom());
    assert forall|k: u64| #[trigger] post.flows.contains_key(k) implies post.flows[k].rx_delta == 0
        && post.flows[k].tx_delta == 0 by {
        assert(pre.flows.contains_key(k));
        assert(post.flows[k] == pre.flows[k].sampled(nanos, pre.rebase));
    }
    lemma_sum_zero(post.flows, post.rows[i].pid, Measure::RxDelta);
    lemma_sum_zero(post.flows, post.rows[i].pid, Measure::TxDelta);
}

/// A row's sparkline never holds more than `hist_len` samples.
pub proof fn law_history_is_capped(v: EngineView, i: int)
    requires
        v.wf(),
        0 <= i < v.rows.len(),
    ensures
        v.rows[i].rx_hist.len() <= v.hist_len,
        v.rows[i].tx_hist.len() <= v.hist_len,
{
    assert(v.hist.contains_key(v.rows[i].pid));
}

/// The connection count of a process is the number of flows its detail view
/// lists.
pub proof fn law_conns_counts_the_detail(list: Seq<FlowView>, flows: Map<u64, FlowView>, pid: u32)
    requires
        flows.dom().finite(),
        pid != 0,
        is_detail(list, flows, pid),
    ensures
        list.len() == sum(flows, pid, Measure::Conns),
{
    let keys = choose|keys: Seq<u64>| #[trigger]
        names_listed(keys, flows, pid) && list =~= keys.map_values(|k: u64| flows[k]);
    lemma_listed_count(keys, flows, pid);
}

proof fn lemma_listed_count(keys: Seq<u64>, flows: Map<u64, FlowView>, pid: u32)
    requires
        flows.dom().finite(),
        pid != 0,
        names_listed(keys, flows, pid),
    ensures
        keys.len() == sum(flows, pid, Measure::Conns),
    decreases keys.len(),
{
    if keys.len() == 0 {
        assert(!live(flows, pid)) by {
            if live(flows, pid) {
                let k = choose|k: u64| #[trigger] flows.contains_key(k) && flows[k].belongs(pid);
                assert(keys.contains(k));
            }
        }
        lemma_nothing_counted(flows, pid);
    } else {
        let k = keys.last();
        let rest = keys.drop_last();
        assert(keys.contains(k));
        assert forall|x: u64| #[trigger] rest.contains(x) <==> flows.remove(k).contains_key(x)
            && listed(flows.remove(k)[x], pid) by {
            if rest.contains(x) {
                let j = choose|j: int| 0 <= j < rest.len() && rest[j] == x;
                assert(keys[j] == x && keys[j] != keys[keys.len() - 1]);
                assert(keys.contains(x));
            }
            if flows.remove(k).contains_key(x) && listed(flows.remove(k)[x], pid) {
                assert(keys.contains(x));
                let j = choose|j: int| 0 <= j < keys.len() && keys[j] == x;
                assert(rest[j] == x);
            }
        }
        lemma_listed_count(rest, flows.remove(k), pid);
        lemma_sum_remove(flows, k, pid, Measure::Conns);
    }
}

} // verus!
