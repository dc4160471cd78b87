//! The data model and aggregation engine — pure, no syscalls.
//!
//! The kernel hands over per-*flow* cumulative byte counters keyed by an opaque
//! `srcref`. [`Engine`] turns that stream of messages into the two views the UI
//! wants: a per-process table (rates derived from counter deltas, plus up/down
//! history for sparklines) and, on demand, the flows belonging to a process.

pub mod engine;
pub mod laws;
pub mod table;

use vstd::prelude::*;

pub use engine::{
    flow_views, is_detail, one_span, Engine, EngineView, HistView, Measure,
};
pub use table::{
    is_table, matches_filter, matches_lowered, sort_rows, sorted_rows, visible_rows,
};

use crate::ntstat::wire::{Counts, Endpoint, FlowDescView};
use crate::rate::Rate;

verus! {

/// Transport protocol of a flow.
#[derive(Clone, Copy, Debug, PartialEq, Eq, Structural)]
pub enum Proto {
    Tcp,
    Udp,
}

impl Proto {
    pub fn as_str(self) -> (r: &'static str)
        ensures
            r@ == (match self {
                Proto::Tcp => "TCP"@,
                Proto::Udp => "UDP"@,
            }),
    {
        match self {
            Proto::Tcp => "TCP",
            Proto::Udp => "UDP",
        }
    }
}

/// One kernel flow (one socket / connection).
#[derive(Debug)]
pub struct Flow {
    pub pid: u32,
    pub pname: String,
    pub proto: Proto,
    pub local: Option<Endpoint>,
    pub remote: Option<Endpoint>,
    pub tcp_state: u32,
    /// Cumulative counters as last reported by the kernel.
    pub rx_bytes: u64,
    pub tx_bytes: u64,
    /// Counter snapshot at the previous tick (for delta → rate).
    pub prev_rx: u64,
    pub prev_tx: u64,
    /// Bytes moved over the last tick, and the nanoseconds it spanned.
    pub rx_delta: u64,
    pub tx_delta: u64,
    pub span: u64,
    /// Set once a descriptor has named the flow (pid / addrs known).
    pub described: bool,
}

/// What a [`Flow`] says, its name as characters.
pub ghost struct FlowView {
    pub pid: u32,
    pub pname: Seq<char>,
    pub proto: Proto,
    pub local: Option<Endpoint>,
    pub remote: Option<Endpoint>,
    pub tcp_state: u32,
    pub rx_bytes: u64,
    pub tx_bytes: u64,
    pub prev_rx: u64,
    pub prev_tx: u64,
    pub rx_delta: u64,
    pub tx_delta: u64,
    pub span: u64,
    pub described: bool,
}

impl View for Flow {
    type V = FlowView;

    open spec fn view(&self) -> FlowView {
        FlowView {
            pid: self.pid,
            pname: self.pname@,
            proto: self.proto,
            local: self.local,
            remote: self.remote,
            tcp_state: self.tcp_state,
            rx_bytes: self.rx_bytes,
            tx_bytes: self.tx_bytes,
            prev_rx: self.prev_rx,
            prev_tx: self.prev_tx,
            rx_delta: self.rx_delta,
            tx_delta: self.tx_delta,
            span: self.span,
            described: self.described,
        }
    }
}

impl Clone for Flow {
    fn clone(&self) -> (r: Flow)
        ensures
            r@ == self@,
    {
        Flow {
            pid: self.pid,
            pname: self.pname.clone(),
            proto: self.proto,
            local: self.local,
            remote: self.remote,
            tcp_state: self.tcp_state,
            rx_bytes: self.rx_bytes,
            tx_bytes: self.tx_bytes,
            prev_rx: self.prev_rx,
            prev_tx: self.prev_tx,
            rx_delta: self.rx_delta,
            tx_delta: self.tx_delta,
            span: self.span,
            described: self.described,
        }
    }
}

impl FlowView {
    /// A flow of which nothing but the protocol is known.
    pub open spec fn blank(proto: Proto) -> FlowView {
        FlowView {
            pid: 0,
            pname: seq![],
            proto,
            local: None,
            remote: None,
            tcp_state: 0,
            rx_bytes: 0,
            tx_bytes: 0,
            prev_rx: 0,
            prev_tx: 0,
            rx_delta: 0,
            tx_delta: 0,
            span: 0,
            described: false,
        }
    }

    /// The flow once `desc` has named it.
    pub open spec fn named(self, proto: Proto, desc: FlowDescView) -> FlowView {
        FlowView {
            proto,
            pid: desc.pid,
            pname: desc.pname,
            local: desc.local,
            remote: desc.remote,
            tcp_state: desc.tcp_state,
            described: true,
            ..self
        }
    }

    /// The flow with fresh counters.
    pub open spec fn counting(self, counts: Counts) -> FlowView {
        FlowView { rx_bytes: counts.rx_bytes, tx_bytes: counts.tx_bytes, ..self }
    }

    /// The flow after a tick of `nanos`: what each counter has grown by since the
    /// previous tick, never less than nothing, and the counters as the new
    /// reference. With `rebase`, or over no time, it counts as not having moved.
    pub open spec fn sampled(self, nanos: u64, rebase: bool) -> FlowView {
        FlowView {
            rx_delta: if rebase || nanos == 0 {
                0
            } else {
                growth(self.rx_bytes, self.prev_rx)
            },
            tx_delta: if rebase || nanos == 0 {
                0
            } else {
                growth(self.tx_bytes, self.prev_tx)
            },
            span: nanos,
            prev_rx: self.rx_bytes,
            prev_tx: self.tx_bytes,
            ..self
        }
    }

    /// Whether the flow counts towards the process `pid`: described, and of a
    /// process the kernel gave a pid for.
    pub open spec fn belongs(self, pid: u32) -> bool {
        self.described && self.pid == pid && pid != 0
    }

    /// Throughput down over the last tick.
    pub open spec fn rx_rate(self) -> Rate {
        Rate { bytes: self.rx_delta as u128, nanos: self.span }
    }

    /// Throughput up over the last tick.
    pub open spec fn tx_rate(self) -> Rate {
        Rate { bytes: self.tx_delta as u128, nanos: self.span }
    }

    /// Combined throughput over the last tick.
    pub open spec fn total_rate(self) -> Rate {
        Rate { bytes: (self.rx_delta + self.tx_delta) as u128, nanos: self.span }
    }

    /// The remote port, 0 without a remote endpoint.
    pub open spec fn remote_port(self) -> u16 {
        match self.remote {
            Some(e) => e.port,
            None => 0,
        }
    }
}

/// What a counter has grown by; one that went backwards was reset and has grown
/// by nothing.
pub open spec fn growth(now: u64, before: u64) -> u64 {
    if now >= before {
        (now - before) as u64
    } else {
        0
    }
}

impl Flow {
    fn new(proto: Proto) -> (r: Self)
        ensures
            r@ == FlowView::blank(proto),
    {
        let r = Flow {
            pid: 0,
            pname: String::new(),
            proto,
            local: None,
            remote: None,
            tcp_state: 0,
            rx_bytes: 0,
            tx_bytes: 0,
            prev_rx: 0,
            prev_tx: 0,
            rx_delta: 0,
            tx_delta: 0,
            span: 0,
            described: false,
        };
        assert(r.pname@ =~= seq![]);
        r
    }

    /// Throughput down over the last tick.
    pub fn rx_rate(&self) -> (r: Rate)
        ensures
            r == self@.rx_rate(),
    {
        Rate { bytes: self.rx_delta as u128, nanos: self.span }
    }

    /// Throughput up over the last tick.
    pub fn tx_rate(&self) -> (r: Rate)
        ensures
            r == self@.tx_rate(),
    {
        Rate { bytes: self.tx_delta as u128, nanos: self.span }
    }

    /// Combined throughput over the last tick.
    pub fn total_rate(&self) -> (r: Rate)
        ensures
            r == self@.total_rate(),
    {
        Rate { bytes: self.rx_delta as u128 + self.tx_delta as u128, nanos: self.span }
    }

    fn sample(&mut self, nanos: u64, rebase: bool)
        ensures
            final(self)@ == old(self)@.sampled(nanos, rebase),
    {
        if rebase || nanos == 0 {
            self.rx_delta = 0;
            self.tx_delta = 0;
        } else {
            self.rx_delta = self.rx_bytes.saturating_sub(self.prev_rx);
            self.tx_delta = self.tx_bytes.saturating_sub(self.prev_tx);
        }
        self.span = nanos;
        self.prev_rx = self.rx_bytes;
        self.prev_tx = self.tx_bytes;
    }
}

/// An aggregated per-process row for the main table.
#[derive(Debug, PartialEq)]
pub struct ProcRow {
    pub pid: u32,
    pub name: String,
    /// Bytes moved over the last tick, and the nanoseconds it spanned.
    pub rx_delta: u128,
    pub tx_delta: u128,
    pub span: u64,
    pub rx_total: u64,
    pub tx_total: u64,
    pub conns: usize,
    /// Recent down/up rates (bytes/sec) for the sparklines, oldest → newest.
    pub rx_hist: Vec<u64>,
    pub tx_hist: Vec<u64>,
}

/// What a [`ProcRow`] says, its name as characters.
pub ghost struct RowView {
    pub pid: u32,
    pub name: Seq<char>,
    pub rx_delta: u128,
    pub tx_delta: u128,
    pub span: u64,
    pub rx_total: u64,
    pub tx_total: u64,
    pub conns: usize,
    pub rx_hist: Seq<u64>,
    pub tx_hist: Seq<u64>,
}

impl View for ProcRow {
    type V = RowView;

    open spec fn view(&self) -> RowView {
        RowView {
            pid: self.pid,
            name: self.name@,
            rx_delta: self.rx_delta,
            tx_delta: self.tx_delta,
            span: self.span,
            rx_total: self.rx_total,
            tx_total: self.tx_total,
            conns: self.conns,
            rx_hist: self.rx_hist@,
            tx_hist: self.tx_hist@,
        }
    }
}

impl Clone for ProcRow {
    fn clone(&self) -> (r: ProcRow)
        ensures
            r@ == self@,
    {
        let r = ProcRow {
            pid: self.pid,
            name: self.name.clone(),
            rx_delta: self.rx_delta,
            tx_delta: self.tx_delta,
            span: self.span,
            rx_total: self.rx_total,
            tx_total: self.tx_total,
            conns: self.conns,
            rx_hist: self.rx_hist.clone(),
            tx_hist: self.tx_hist.clone(),
        };
        assert(r.rx_hist@ =~= self.rx_hist@);
        assert(r.tx_hist@ =~= self.tx_hist@);
        r
    }
}

/// `n`, or the largest `u64` if it is more.
pub open spec fn capped(n: nat) -> u64 {
    if n <= u64::MAX {
        n as u64
    } else {
        u64::MAX
    }
}

impl RowView {
    /// Throughput down over the last tick.
    pub open spec fn rx_rate(self) -> Rate {
        Rate { bytes: self.rx_delta, nanos: self.span }
    }

    /// Throughput up over the last tick.
    pub open spec fn tx_rate(self) -> Rate {
        Rate { bytes: self.tx_delta, nanos: self.span }
    }

    /// Combined throughput (down + up).
    pub open spec fn total_rate(self) -> Rate {
        Rate {
            bytes: if self.rx_delta + self.tx_delta <= u128::MAX {
                (self.rx_delta + self.tx_delta) as u128
            } else {
                u128::MAX
            },
            nanos: self.span,
        }
    }

    /// Combined cumulative bytes.
    pub open spec fn total_bytes(self) -> u64 {
        capped((self.rx_total + self.tx_total) as nat)
    }
}

impl ProcRow {
    /// Throughput down over the last tick.
    pub fn rx_rate(&self) -> (r: Rate)
        ensures
            r == self@.rx_rate(),
    {
        Rate { bytes: self.rx_delta, nanos: self.span }
    }

    /// Throughput up over the last tick.
    pub fn tx_rate(&self) -> (r: Rate)
        ensures
            r == self@.tx_rate(),
    {
        Rate { bytes: self.tx_delta, nanos: self.span }
    }

    /// Combined throughput (down + up), the default sort weight.
    pub fn total_rate(&self) -> (r: Rate)
        ensures
            r == self@.total_rate(),
    {
        Rate { bytes: self.rx_delta.saturating_add(self.tx_delta), nanos: self.span }
    }

    /// Combined cumulative bytes.
    pub fn total_bytes(&self) -> (r: u64)
        ensures
            r == self@.total_bytes(),
    {
        self.rx_total.saturating_add(self.tx_total)
    }
}

/// Columns the table can be sorted by.
#[derive(Clone, Copy, Debug, PartialEq, Eq, Structural)]
pub enum SortKey {
    Rate,
    Total,
    Name,
    Conns,
    Pid,
}

impl SortKey {
    /// The column's name in the status line.
    pub open spec fn text(self) -> Seq<char> {
        match self {
            SortKey::Rate => "rate"@,
            SortKey::Total => "total"@,
            SortKey::Name => "name"@,
            SortKey::Conns => "conns"@,
            SortKey::Pid => "pid"@,
        }
    }

    pub fn label(self) -> (r: &'static str)
        ensures
            r@ == self.text(),
    {
        match self {
            SortKey::Rate => "rate",
            SortKey::Total => "total",
            SortKey::Name => "name",
            SortKey::Conns => "conns",
            SortKey::Pid => "pid",
        }
    }
}

/// The views of a sequence of rows.
pub open spec fn row_views(s: Seq<ProcRow>) -> Seq<RowView> {
    s.map_values(|r: ProcRow| r@)
}

/// The views of a sequence of flows.
pub open spec fn flow_seq(s: Seq<Flow>) -> Seq<FlowView> {
    s.map_values(|f: Flow| f@)
}

} // verus!
