//! The ntstat client: holds the [`Engine`], says which requests go to the kernel
//! and folds the kernel's messages into per-process state.
//!
//! Protocol, per Apple's headers:
//! 1. The control socket is opened and connected.
//! 2. `ADD_ALL_SRCS` for each TCP/UDP provider subscribes.
//! 3. The kernel streams `SRC_ADDED`; each is answered by a `GET_SRC_DESC`, which
//!    brings a `SRC_DESC` (pid, process name, local/remote addr+port, TCP state).
//! 4. Each interval one `QUERY_SRC` for `NSTAT_SRC_REF_ALL` brings the
//!    `SRC_COUNTS` (cumulative rx/tx bytes).
//! 5. `SRC_REMOVED` retires a flow.

pub mod wire;

use std::collections::{HashSet, VecDeque};

use vstd::prelude::*;

use crate::model::{Engine, EngineView, Proto};
use crate::text;
use wire::{
    is_tcp_provider, is_udp_provider, FlowDesc, FlowDescView, Msg, MsgView, NstatMsgAddAllSrcs,
    NstatMsgHdr, NstatMsgSrcRefReq, ADD_ALL_SRCS_LEN, NSTAT_FILTER_FLAGS_V1_USAGE,
    NSTAT_MSG_HDR_FLAG_SUPPORTS_AGGREGATE, NSTAT_MSG_TYPE_ADD_ALL_SRCS, NSTAT_MSG_TYPE_GET_SRC_DESC,
    NSTAT_MSG_TYPE_QUERY_SRC, NSTAT_PROVIDER_TCP_KERNEL, NSTAT_PROVIDER_TCP_USERLAND,
    NSTAT_PROVIDER_UDP_KERNEL, NSTAT_PROVIDER_UDP_USERLAND, NSTAT_SRC_REF_ALL, SRC_REF_REQ_LEN,
};

verus! {

broadcast use vstd::std_specs::hash::group_hash_axioms;

/// Descriptor requests sent per drain. Subscribing yields a burst of 100+
/// SRC_ADDED; firing a GET_SRC_DESC for every one at once overruns the kernel
/// control's reply queue (ENOBUFS) and starves the count poll, so they are paced.
pub const DESC_BATCH: usize = 16;

/// `ENOBUFS` — transient backpressure when a poll burst outruns the socket
/// buffer. The next poll recovers, so it isn't surfaced as a real error.
pub const ENOBUFS: u32 = 55;

/// Context of the subscription to the first provider; the others follow.
pub const SUBSCRIBE_CONTEXT: u64 = 0x1000;

/// Context of the count poll.
pub const POLL_CONTEXT: u64 = 0xC0;

/// The protocol of a provider's flows.
pub open spec fn protocol(provider: u32) -> Option<Proto> {
    if wire::tcp_provider(provider) {
        Some(Proto::Tcp)
    } else if wire::udp_provider(provider) {
        Some(Proto::Udp)
    } else {
        None
    }
}

/// The protocol of a provider's flows; `None` for one that is not subscribed to.
pub fn proto_of(provider: u32) -> (r: Option<Proto>)
    ensures
        r == protocol(provider),
{
    if is_tcp_provider(provider) {
        Some(Proto::Tcp)
    } else if is_udp_provider(provider) {
        Some(Proto::Udp)
    } else {
        None
    }
}

/// The bytes of a query or describe request.
pub open spec fn src_ref_request(context: u64, msg_type: u32, srcref: u64) -> Seq<u8> {
    (NstatMsgSrcRefReq {
        hdr: NstatMsgHdr {
            context,
            msg_type,
            length: SRC_REF_REQ_LEN,
            flags: NSTAT_MSG_HDR_FLAG_SUPPORTS_AGGREGATE,
        },
        srcref,
    }).encoded()
}

/// The bytes of a subscription to every source of a provider: no event flags, any
/// process (pid -1) and no uuid.
pub open spec fn subscription(context: u64, provider: u32) -> Seq<u8> {
    wire::header_bytes(
        NstatMsgHdr {
            context,
            msg_type: NSTAT_MSG_TYPE_ADD_ALL_SRCS,
            length: ADD_ALL_SRCS_LEN,
            flags: NSTAT_MSG_HDR_FLAG_SUPPORTS_AGGREGATE,
        },
    ) + wire::le_bytes(NSTAT_FILTER_FLAGS_V1_USAGE as nat, 8) + wire::le_bytes(0, 8)
        + wire::le_bytes(provider as nat, 4) + wire::le_bytes(0xffff_ffff, 4) + Seq::new(
        16,
        |i: int| 0u8,
    )
}

/// The providers subscribed to, in order: TCP and UDP, both the in-kernel
/// BSD-socket flows and the userland (Network.framework / NECP) flows.
pub open spec fn subscribed_providers() -> Seq<u32> {
    seq![
        NSTAT_PROVIDER_TCP_KERNEL,
        NSTAT_PROVIDER_TCP_USERLAND,
        NSTAT_PROVIDER_UDP_KERNEL,
        NSTAT_PROVIDER_UDP_USERLAND,
    ]
}

/// What stands after the last slash of a path.
pub open spec fn after_last_slash(path: Seq<char>) -> Seq<char>
    decreases path.len(),
{
    if path.len() == 0 || path.last() == '/' {
        seq![]
    } else {
        after_last_slash(path.drop_last()).push(path.last())
    }
}

/// The file name of an executable's path; `None` if the path names none.
pub fn file_name(path: &str) -> (r: Option<String>)
    ensures
        match r {
            Some(name) => name@ == after_last_slash(path@) && name@.len() > 0,
            None => after_last_slash(path@).len() == 0,
        },
{
    let chars: Vec<char> = text::chars_of(path);
    let mut from: usize = chars.len();
    proof {
        assert(path@.take(chars@.len() as int) =~= path@);
        assert(path@.subrange(from as int, chars@.len() as int) =~= seq![]);
        assert(after_last_slash(path@) =~= after_last_slash(path@) + seq![]);
    }
    while from > 0 && chars[from - 1] != '/'
        invariant
            chars@ == path@,
            from <= chars@.len(),
            after_last_slash(path@) == after_last_slash(path@.take(from as int)) + path@.subrange(
                from as int,
                chars@.len() as int,
            ),
        ensures
            from > 0 ==> path@[from - 1] == '/',
        decreases from,
    {
        proof {
            let head = path@.take(from as int);
            assert(head.drop_last() =~= path@.take(from - 1));
            assert(path@.subrange(from - 1, chars@.len() as int) =~= seq![path@[from - 1]]
                + path@.subrange(from as int, chars@.len() as int));
            assert(after_last_slash(head) + path@.subrange(from as int, chars@.len() as int)
                =~= after_last_slash(path@.take(from - 1)) + path@.subrange(
                from - 1,
                chars@.len() as int,
            ));
        }
        from = from - 1;
    }
    proof {
        assert(after_last_slash(path@.take(from as int)) =~= seq![]);
        assert(after_last_slash(path@) =~= path@.subrange(from as int, chars@.len() as int));
    }
    if from == chars.len() {
        None
    } else {
        Some(text::string_of(&chars, from, chars.len()))
    }
}

/// The file name of an executable whose path the system gave as bytes.
pub fn exe_name(path: &[u8]) -> (r: Option<String>)
    ensures
        match r {
            Some(name) => name@ == after_last_slash(wire::lossy_text(path@)) && name@.len() > 0,
            None => after_last_slash(wire::lossy_text(path@)).len() == 0,
        },
        vstd::utf8::valid_utf8(path@) ==> match r {
            Some(name) => name@ == after_last_slash(vstd::utf8::decode_utf8(path@)),
            None => after_last_slash(vstd::utf8::decode_utf8(path@)).len() == 0,
        },
{
    file_name(wire::utf8_lossy(path).as_str())
}

/// A live network-statistics monitor: everything but the socket.
pub struct Monitor {
    engine: Engine,
    /// srcrefs the kernel has already been asked to describe (once each).
    requested: HashSet<u64>,
    /// srcrefs awaiting a (paced) descriptor request.
    pending_desc: VecDeque<u64>,
    last_error: Option<u32>,
}

/// The state of a [`Monitor`].
pub ghost struct MonitorView {
    pub engine: EngineView,
    pub requested: Set<u64>,
    pub pending: Seq<u64>,
    pub last_error: Option<u32>,
}

impl View for Monitor {
    type V = MonitorView;

    closed spec fn view(&self) -> MonitorView {
        MonitorView {
            engine: self.engine@,
            requested: self.requested@,
            pending: self.pending_desc@,
            last_error: self.last_error,
        }
    }
}

/// Whether a descriptor goes by the executable's name: it is of a subscribed
/// provider and came without a name.
pub open spec fn lacks_name(provider: u32, desc: FlowDescView) -> bool {
    protocol(provider) is Some && desc.pname.len() == 0
}

/// The descriptor with `name` in place of a missing process name.
pub open spec fn with_name(
    provider: u32,
    desc: FlowDescView,
    name: Option<Seq<char>>,
) -> FlowDescView {
    if lacks_name(provider, desc) && name is Some {
        FlowDescView { pname: name->0, ..desc }
    } else {
        desc
    }
}

/// The process whose executable's name is wanted before the message is applied:
/// that of a descriptor, on its own or bundled in an update, which lacks one.
pub open spec fn unnamed_pid(msg: MsgView) -> Option<u32> {
    match msg {
        MsgView::SrcDesc { provider, desc, .. } => if lacks_name(provider, desc) {
            Some(desc.pid)
        } else {
            None
        },
        MsgView::SrcUpdate { provider, desc: Some(desc), .. } => if lacks_name(provider, desc) {
            Some(desc.pid)
        } else {
            None
        },
        _ => None,
    }
}

impl MonitorView {
    /// A monitor that has seen nothing.
    pub open spec fn fresh(hist_len: nat) -> MonitorView {
        MonitorView {
            engine: EngineView::fresh(hist_len),
            requested: Set::empty(),
            pending: seq![],
            last_error: None,
        }
    }

    /// The state with `engine` in place of the engine's.
    pub open spec fn with_engine(self, engine: EngineView) -> MonitorView {
        MonitorView { engine, ..self }
    }

    /// The state with a description of `srcref` asked for, unless it was before.
    pub open spec fn asking(self, srcref: u64) -> MonitorView {
        MonitorView {
            requested: self.requested.insert(srcref),
            pending: if self.requested.contains(srcref) {
                self.pending
            } else {
                self.pending.push(srcref)
            },
            ..self
        }
    }

    /// The state after a message. `name` stands in for a descriptor's missing
    /// process name.
    pub open spec fn applied(self, msg: MsgView, name: Option<Seq<char>>) -> MonitorView {
        match msg {
            MsgView::SrcAdded { srcref, provider } => self.with_engine(
                match protocol(provider) {
                    Some(proto) => self.engine.added(srcref, proto),
                    None => self.engine,
                },
            ).asking(srcref),
            MsgView::SrcDesc { srcref, provider, desc } => self.with_engine(
                match protocol(provider) {
                    Some(proto) => self.engine.described(
                        srcref,
                        proto,
                        with_name(provider, desc, name),
                    ),
                    None => self.engine,
                },
            ),
            MsgView::SrcCounts { srcref, counts } => self.with_engine(
                self.engine.counted(srcref, counts),
            ),
            MsgView::SrcUpdate { srcref, provider, counts, desc } => self.with_engine(
                self.engine.updated(
                    srcref,
                    match protocol(provider) {
                        Some(proto) => proto,
                        None => Proto::Tcp,
                    },
                    counts,
                    match desc {
                        Some(desc) => Some(with_name(provider, desc, name)),
                        None => None,
                    },
                ),
            ),
            MsgView::SrcRemoved { srcref } => MonitorView {
                requested: self.requested.remove(srcref),
                ..self.with_engine(self.engine.removed(srcref))
            },
            MsgView::Error { code } => if code == ENOBUFS {
                self
            } else {
                MonitorView { last_error: Some(code), ..self }
            },
            MsgView::Success | MsgView::Other { .. } => self,
        }
    }
}

/// Whether `names` holds, for each message that wants a name, what `lookup` gave
/// for its process, and no name for any other.
pub open spec fn looked_up<F: Fn(u32) -> Option<String>>(
    names: Seq<Option<String>>,
    msgs: Seq<MsgView>,
    lookup: F,
) -> bool {
    &&& names.len() == msgs.len()
    &&& forall|i: int|
        0 <= i < msgs.len() ==> match unnamed_pid(#[trigger] msgs[i]) {
            Some(pid) => lookup.ensures((pid,), names[i]),
            None => names[i] is None,
        }
}

/// The state after a sequence of messages, each with its name.
pub open spec fn folded(
    m: MonitorView,
    msgs: Seq<MsgView>,
    names: Seq<Option<String>>,
) -> MonitorView
    decreases msgs.len(),
{
    if msgs.len() == 0 {
        m
    } else {
        folded(m, msgs.drop_last(), names.drop_last()).applied(
            msgs.last(),
            text::maybe(names.last()),
        )
    }
}

impl Monitor {
    /// The invariant of the monitor.
    pub open spec fn wf(&self) -> bool {
        self@.engine.wf()
    }

    /// A monitor for a socket that is about to be subscribed.
    pub fn new(hist_len: usize) -> (r: Self)
        ensures
            r.wf(),
            r@ == MonitorView::fresh(if hist_len == 0 { 1 } else { hist_len as nat }),
    {
        let r = Monitor {
            engine: Engine::new(hist_len),
            requested: HashSet::new(),
            pending_desc: VecDeque::new(),
            last_error: None,
        };
        assert(r@.requested =~= Set::empty());
        assert(r@.pending =~= seq![]);
        r
    }

    /// The requests that subscribe to the TCP + UDP sources.
    pub fn subscribe() -> (r: Vec<Vec<u8>>)
        ensures
            r@.len() == subscribed_providers().len(),
            forall|i: int|
                0 <= i < r@.len() ==> (#[trigger] r@[i])@ == subscription(
                    (SUBSCRIBE_CONTEXT + i) as u64,
                    subscribed_providers()[i],
                ),
    {
        let mut r: Vec<Vec<u8>> = Vec::new();
        r.push(subscribe_to(SUBSCRIBE_CONTEXT, NSTAT_PROVIDER_TCP_KERNEL));
        r.push(subscribe_to(SUBSCRIBE_CONTEXT + 1, NSTAT_PROVIDER_TCP_USERLAND));
        r.push(subscribe_to(SUBSCRIBE_CONTEXT + 2, NSTAT_PROVIDER_UDP_KERNEL));
        r.push(subscribe_to(SUBSCRIBE_CONTEXT + 3, NSTAT_PROVIDER_UDP_USERLAND));
        r
    }

    fn request_desc(srcref: u64) -> (r: Vec<u8>)
        ensures
            r@ == src_ref_request(srcref, NSTAT_MSG_TYPE_GET_SRC_DESC, srcref),
    {
        NstatMsgSrcRefReq::new(srcref, NSTAT_MSG_TYPE_GET_SRC_DESC, srcref).to_bytes()
    }

    /// The request for fresh counters on every source at once.
    pub fn poll_counts() -> (r: Vec<u8>)
        ensures
            r@ == src_ref_request(POLL_CONTEXT, NSTAT_MSG_TYPE_QUERY_SRC, NSTAT_SRC_REF_ALL),
    {
        NstatMsgSrcRefReq::new(POLL_CONTEXT, NSTAT_MSG_TYPE_QUERY_SRC, NSTAT_SRC_REF_ALL).to_bytes()
    }

    /// The next queued descriptor request, once `sent` have gone out in this
    /// drain; `None` when the batch of [`DESC_BATCH`] is used up or nothing waits.
    pub fn pump_desc_requests(&mut self, sent: usize) -> (r: Option<Vec<u8>>)
        requires
            old(self).wf(),
        ensures
            final(self).wf(),
            sent >= DESC_BATCH || old(self)@.pending.len() == 0 ==> r is None && final(self)@
                == old(self)@,
            sent < DESC_BATCH && old(self)@.pending.len() > 0 ==> {
                &&& r is Some
                &&& r->0@ == src_ref_request(
                    old(self)@.pending[0],
                    NSTAT_MSG_TYPE_GET_SRC_DESC,
                    old(self)@.pending[0],
                )
                &&& final(self)@ == (MonitorView {
                    pending: old(self)@.pending.drop_first(),
                    ..old(self)@
                })
            },
    {
        if sent >= DESC_BATCH {
            return None;
        }
        match self.pending_desc.pop_front() {
            Some(srcref) => {
                assert(self@.pending =~= old(self)@.pending.drop_first());
                Some(Self::request_desc(srcref))
            },
            None => None,
        }
    }

    /// The process whose executable's name [`Monitor::apply`] wants along with
    /// the message.
    pub fn wants_name(msg: &Msg) -> (r: Option<u32>)
        ensures
            r == unnamed_pid(msg@),
    {
        match msg {
            Msg::SrcDesc { provider, desc, .. } => {
                if is_unnamed(*provider, desc) {
                    Some(desc.pid)
                } else {
                    None
                }
            },
            Msg::SrcUpdate { provider, desc: Some(desc), .. } => {
                if is_unnamed(*provider, desc) {
                    Some(desc.pid)
                } else {
                    None
                }
            },
            _ => None,
        }
    }

    /// Fold one message into the state. `name` is the executable's name of the
    /// process that [`Monitor::wants_name`] gives, where it could be had.
    pub fn apply(&mut self, msg: Msg, name: Option<String>)
        requires
            old(self).wf(),
        ensures
            final(self).wf(),
            final(self)@ == old(self)@.applied(msg@, text::maybe(name)),
    {
        match msg {
            Msg::SrcAdded { srcref, provider } => {
                if let Some(proto) = proto_of(provider) {
                    self.engine.on_added(srcref, proto);
                }
                if self.requested.insert(srcref) {
                    self.pending_desc.push_back(srcref);
                }
                assert(self@.requested =~= old(self)@.requested.insert(srcref));
            },
            Msg::SrcDesc { srcref, provider, desc } => {
                if let Some(proto) = proto_of(provider) {
                    self.engine.on_desc(srcref, proto, fill_name(provider, desc, name));
                }
            },
            Msg::SrcCounts { srcref, counts } => self.engine.on_counts(srcref, counts),
            Msg::SrcUpdate { srcref, provider, counts, desc } => {
                let proto = match proto_of(provider) {
                    Some(proto) => proto,
                    None => Proto::Tcp,
                };
                let desc: Option<FlowDesc> = match desc {
                    Some(desc) => Some(fill_name(provider, desc, name)),
                    None => None,
                };
                self.engine.on_update(srcref, proto, counts, desc);
            },
            Msg::SrcRemoved { srcref } => {
                self.engine.on_removed(srcref);
                self.requested.remove(&srcref);
                assert(self@.requested =~= old(self)@.requested.remove(srcref));
            },
            Msg::Error { code } => {
                if code != ENOBUFS {
                    self.last_error = Some(code);
                }
            },
            Msg::Success | Msg::Other { .. } => {},
        }
    }

    /// Fold every message of a datagram into the state, in order. `lookup` gives
    /// the executable's name of a process, where it can be had.
    pub fn ingest<F: Fn(u32) -> Option<String>>(&mut self, datagram: &[u8], lookup: F)
        requires
            old(self).wf(),
            forall|pid: u32| #[trigger] lookup.requires((pid,)),
        ensures
            final(self).wf(),
            exists|names: Seq<Option<String>>|
                {
                    &&& #[trigger] looked_up(names, wire::messages(datagram@), lookup)
                    &&& final(self)@ == folded(old(self)@, wire::messages(datagram@), names)
                },
    {
        let msgs: Vec<Msg> = wire::parse_datagram(datagram);
        let ghost views = wire::msg_views(msgs@);
        let ghost pre = self@;
        let ghost mut names: Seq<Option<String>> = seq![];
        for msg in it: msgs
            invariant
                it.seq() == msgs@,
                views == wire::msg_views(msgs@),
                self.wf(),
                forall|pid: u32| #[trigger] lookup.requires((pid,)),
                looked_up(names, views.take(it.index() as int), lookup),
                self@ == folded(pre, views.take(it.index() as int), names),
        {
            let ghost k = it.index() as int;
            let name: Option<String> = match Self::wants_name(&msg) {
                Some(pid) => lookup(pid),
                None => None,
            };
            proof {
                let next = views.take(k + 1);
                let more = names.push(name);
                assert(next.drop_last() =~= views.take(k));
                assert(more.drop_last() =~= names);
                assert(next.last() == msg@);
                names = more;
            }
            self.apply(msg, name);
        }
        proof {
            assert(views.take(views.len() as int) =~= views);
            assert(looked_up(names, wire::messages(datagram@), lookup));
        }
    }

    /// Recompute rates and aggregates over `nanos` nanoseconds.
    pub fn tick(&mut self, nanos: u64)
        requires
            old(self).wf(),
        ensures
            final(self).wf(),
            old(self)@.engine.ticks_to(nanos, final(self)@.engine),
            final(self)@ == old(self)@.with_engine(final(self)@.engine),
    {
        self.engine.tick(nanos);
    }

    /// Re-baseline every flow's rate reference on the next `tick`. Pair with a
    /// fresh [`Monitor::poll_counts`] when resuming from a pause so the gap isn't
    /// rendered as a one-tick rate spike.
    pub fn reprime(&mut self)
        requires
            old(self).wf(),
        ensures
            final(self).wf(),
            final(self)@ == old(self)@.with_engine(
                (EngineView { rebase: true, ..old(self)@.engine }),
            ),
    {
        self.engine.reprime();
    }

    pub fn engine(&self) -> (r: &Engine)
        ensures
            r@ == self@.engine,
    {
        &self.engine
    }

    /// The last kernel-reported error code, if any (surfaced in `--diag`).
    pub fn last_error(&self) -> (r: Option<u32>)
        ensures
            r == self@.last_error,
    {
        self.last_error
    }
}

fn is_unnamed(provider: u32, desc: &FlowDesc) -> (r: bool)
    ensures
        r == lacks_name(provider, desc@),
{
    proto_of(provider).is_some() && desc.pname.as_str().is_empty()
}

fn fill_name(provider: u32, desc: FlowDesc, name: Option<String>) -> (r: FlowDesc)
    ensures
        r@ == with_name(provider, desc@, text::maybe(name)),
{
    let mut desc = desc;
    if is_unnamed(provider, &desc) {
        if let Some(name) = name {
            desc.pname = name;
        }
    }
    desc
}

fn subscribe_to(context: u64, provider: u32) -> (r: Vec<u8>)
    ensures
        r@ == subscription(context, provider),
{
    let req = NstatMsgAddAllSrcs::new(context, provider);
    assert(wire::twos_complement(req.target_pid) == 0xffff_ffff);
    req.to_bytes()
}

// ---- laws ------------------------------------------------------------------

/// Messages have the same effect whether they come in one go or in two.
pub proof fn law_messages_fold_in_order(
    m: MonitorView,
    first: Seq<MsgView>,
    first_names: Seq<Option<String>>,
    second: Seq<MsgView>,
    second_names: Seq<Option<String>>,
)
    requires
        first.len() == first_names.len(),
        second.len() == second_names.len(),
    ensures
        folded(m, first + second, first_names + second_names) == folded(
            folded(m, first, first_names),
            second,
            second_names,
        ),
    decreases second.len(),
{
    if second.len() == 0 {
        assert(first + second =~= first);
        assert(first_names + second_names =~= first_names);
    } else {
        let (rest, rest_names) = (second.drop_last(), second_names.drop_last());
        law_messages_fold_in_order(m, first, first_names, rest, rest_names);
        assert((first + second).drop_last() =~= first + rest);
        assert((first_names + second_names).drop_last() =~= first_names + rest_names);
    }
}

/// Two datagrams packed into one have the effect of the first and then the
/// second.
pub proof fn law_aggregate_is_its_parts(
    m: MonitorView,
    first: Seq<u8>,
    first_names: Seq<Option<String>>,
    second: Seq<u8>,
    second_names: Seq<Option<String>>,
)
    requires
        wire::well_framed(first),
        first_names.len() == wire::messages(first).len(),
        second_names.len() == wire::messages(second).len(),
    ensures
        folded(m, wire::messages(first + second), first_names + second_names) == folded(
            folded(m, wire::messages(first), first_names),
            wire::messages(second),
            second_names,
        ),
{
    wire::law_aggregate_datagram(first, second);
    law_messages_fold_in_order(
        m,
        wire::messages(first),
        first_names,
        wire::messages(second),
        second_names,
    );
}

/// A flow that is announced twice in a row is asked about at most once.
pub proof fn law_second_announcement_is_idle(
    m: MonitorView,
    srcref: u64,
    provider: u32,
    again: u32,
    name: Option<Seq<char>>,
)
    ensures
        ({
            let once = m.applied(MsgView::SrcAdded { srcref, provider }, name);
            let twice = once.applied(MsgView::SrcAdded { srcref, provider: again }, name);
            &&& once.requested.contains(srcref)
            &&& twice.pending == once.pending
            &&& twice.requested == once.requested
        }),
{
    let once = m.applied(MsgView::SrcAdded { srcref, provider }, name);
    assert(once.requested.insert(srcref) =~= once.requested);
}

/// A flow is described once: when it has been asked about, no further request
/// for it is queued, whatever comes in, until it is removed.
pub proof fn law_described_once(
    m: MonitorView,
    srcref: u64,
    msgs: Seq<MsgView>,
    names: Seq<Option<String>>,
)
    requires
        m.requested.contains(srcref),
        forall|i: int|
            0 <= i < msgs.len() ==> #[trigger] msgs[i] != (MsgView::SrcRemoved { srcref }),
    ensures
        ({
            let after = folded(m, msgs, names);
            &&& after.requested.contains(srcref)
            &&& m.pending.is_prefix_of(after.pending)
            &&& forall|i: int|
                m.pending.len() <= i < after.pending.len() ==> #[trigger] after.pending[i] != srcref
        }),
    decreases msgs.len(),
{
    if msgs.len() > 0 {
        let (front, front_names) = (msgs.drop_last(), names.drop_last());
        assert forall|i: int| 0 <= i < front.len() implies #[trigger] front[i] != (
        MsgView::SrcRemoved { srcref }) by {
            assert(front[i] == msgs[i]);
        }
        law_described_once(m, srcref, front, front_names);
        let before = folded(m, front, front_names);
        law_queue_is_first_in_first_out(before, msgs.last(), text::maybe(names.last()));
        assert(msgs[msgs.len() - 1] != (MsgView::SrcRemoved { srcref }));
        let after = folded(m, msgs, names);
        assert(m.pending =~= after.pending.take(m.pending.len() as int));
    }
}

/// Requests that wait go out in the order in which their flows were announced:
/// whatever comes in, the queue only grows at its end.
pub proof fn law_queue_is_first_in_first_out(m: MonitorView, msg: MsgView, name: Option<Seq<char>>)
    ensures
        m.pending.is_prefix_of(m.applied(msg, name).pending),
{
    let after = m.applied(msg, name).pending;
    assert(m.pending =~= after.take(m.pending.len() as int));
}

/// Backpressure is no error: it leaves everything as it was.
pub proof fn law_backpressure_is_ignored(m: MonitorView, name: Option<Seq<char>>)
    ensures
        m.applied(MsgView::Error { code: ENOBUFS }, name) == m,
{
}

/// The flow that a message describes, with the provider and the descriptor.
pub open spec fn described_by(msg: MsgView) -> Option<(u64, u32, FlowDescView)> {
    match msg {
        MsgView::SrcDesc { srcref, provider, desc } => Some((srcref, provider, desc)),
        MsgView::SrcUpdate { srcref, provider, desc: Some(desc), .. } => Some(
            (srcref, provider, desc),
        ),
        _ => None,
    }
}

/// Every flow that a message of a subscribed provider describes goes by the name
/// the kernel gave it, and by the executable's name where the kernel gave none
/// and that could be had.
pub proof fn law_unnamed_flows_take_the_executables_name(
    m: MonitorView,
    msg: MsgView,
    name: Option<Seq<char>>,
)
    requires
        described_by(msg) matches Some((_, provider, _)) && protocol(provider) is Some,
    ensures
        ({
            let (srcref, _, desc) = described_by(msg)->0;
            let flows = m.applied(msg, name).engine.flows;
            &&& flows.contains_key(srcref)
            &&& flows[srcref].described
            &&& flows[srcref].pid == desc.pid
            &&& desc.pname.len() > 0 ==> unnamed_pid(msg) is None && flows[srcref].pname
                == desc.pname
            &&& desc.pname.len() == 0 ==> unnamed_pid(msg) == Some(desc.pid)
            &&& desc.pname.len() == 0 && name is Some ==> flows[srcref].pname == name->0
        }),
{
}

/// The name looked up for a descriptor never replaces one that the kernel gave.
pub proof fn law_kernel_name_wins(m: MonitorView, msg: MsgView, name: Option<Seq<char>>)
    requires
        unnamed_pid(msg) is None,
    ensures
        m.applied(msg, name) == m.applied(msg, None),
{
}

/// The protocol of a flow goes by its provider: the two of TCP, the two of UDP,
/// and no other is subscribed to.
pub proof fn law_protocols(provider: u32)
    ensures
        protocol(provider) == Some(Proto::Tcp) <==> provider == 2 || provider == 3,
        protocol(provider) == Some(Proto::Udp) <==> provider == 4 || provider == 5,
        protocol(provider) is None <==> provider < 2 || provider > 5,
        subscribed_providers() == seq![2u32, 3u32, 4u32, 5u32],
        SUBSCRIBE_CONTEXT == 0x1000 && POLL_CONTEXT == 0xc0,
        DESC_BATCH == 16 && ENOBUFS == 55,
{
}

/// A subscription asks for every source of its provider, on any interface and of
/// any process.
pub proof fn law_subscription_bytes(context: u64, provider: u32)
    ensures
        ({
            let b = subscription(context, provider);
            &&& b.len() == 56
            &&& wire::u64_at(b, 0) == context
            &&& wire::u32_at(b, 8) == 1002
            &&& wire::u16_at(b, 12) == 56
            &&& wire::u16_at(b, 14) == 1
            &&& wire::u64_at(b, 16) == 0x1f7f
            &&& wire::u64_at(b, 24) == 0
            &&& wire::u32_at(b, 32) == provider
            &&& wire::u32_at(b, 36) == 0xffff_ffff
            &&& forall|i: int| 40 <= i < 56 ==> #[trigger] b[i] == 0
        }),
{
    let b = subscription(context, provider);
    let h = NstatMsgHdr {
        context,
        msg_type: NSTAT_MSG_TYPE_ADD_ALL_SRCS,
        length: ADD_ALL_SRCS_LEN,
        flags: NSTAT_MSG_HDR_FLAG_SUPPORTS_AGGREGATE,
    };
    let filter = NSTAT_FILTER_FLAGS_V1_USAGE as nat;
    let rest = wire::le_bytes(filter, 8) + wire::le_bytes(0, 8) + wire::le_bytes(
        provider as nat,
        4,
    ) + wire::le_bytes(0xffff_ffff, 4) + Seq::new(16, |i: int| 0u8);
    wire::law_header_is_written_in_order(h, rest);
    assert(b =~= wire::header_bytes(h) + rest);
    reveal_with_fuel(wire::pow256, 9);
    wire::lemma_le_bytes_len(filter, 8);
    wire::lemma_le_bytes_len(0, 8);
    wire::lemma_le_bytes_len(provider as nat, 4);
    wire::lemma_le_bytes_len(0xffff_ffff, 4);
    wire::lemma_le_of_le_bytes(filter, 8);
    wire::lemma_le_of_le_bytes(0, 8);
    wire::lemma_le_of_le_bytes(provider as nat, 4);
    wire::lemma_le_of_le_bytes(0xffff_ffff, 4);
    assert(b.subrange(16, 24) =~= wire::le_bytes(filter, 8));
    assert(b.subrange(24, 32) =~= wire::le_bytes(0, 8));
    assert(b.subrange(32, 36) =~= wire::le_bytes(provider as nat, 4));
    assert(b.subrange(36, 40) =~= wire::le_bytes(0xffff_ffff, 4));
    wire::lemma_numbers_at(b, 16);
    wire::lemma_numbers_at(b, 24);
    wire::lemma_numbers_at(b, 32);
    wire::lemma_numbers_at(b, 36);
}

/// A query or describe request names its source after the header.
pub proof fn law_src_ref_request_bytes(context: u64, msg_type: u32, srcref: u64)
    ensures
        ({
            let b = src_ref_request(context, msg_type, srcref);
            &&& b.len() == 24
            &&& wire::u64_at(b, 0) == context
            &&& wire::u32_at(b, 8) == msg_type
            &&& wire::u16_at(b, 12) == 24
            &&& wire::u16_at(b, 14) == 1
            &&& wire::u64_at(b, 16) == srcref
        }),
{
    let b = src_ref_request(context, msg_type, srcref);
    let h = NstatMsgHdr {
        context,
        msg_type,
        length: SRC_REF_REQ_LEN,
        flags: NSTAT_MSG_HDR_FLAG_SUPPORTS_AGGREGATE,
    };
    let rest = wire::le_bytes(srcref as nat, 8);
    wire::law_header_is_written_in_order(h, rest);
    reveal_with_fuel(wire::pow256, 9);
    wire::lemma_le_bytes_len(srcref as nat, 8);
    wire::lemma_le_of_le_bytes(srcref as nat, 8);
    assert(b.subrange(16, 24) =~= rest);
    wire::lemma_numbers_at(b, 16);
}

/// A file name is what a path ends with: it has no slash, and the start of the
/// path or a slash stands before it.
pub proof fn law_file_name_is_the_last_part(path: Seq<char>)
    ensures
        ({
            let name = after_last_slash(path);
            let at = path.len() - name.len();
            &&& 0 <= at
            &&& path.subrange(at, path.len() as int) == name
            &&& forall|i: int| 0 <= i < name.len() ==> #[trigger] name[i] != '/'
            &&& at == 0 || path[at - 1] == '/'
        }),
    decreases path.len(),
{
    if path.len() > 0 && path.last() != '/' {
        let front = path.drop_last();
        law_file_name_is_the_last_part(front);
        let (name, short) = (after_last_slash(path), after_last_slash(front));
        let at = path.len() - name.len();
        assert(path.subrange(at, path.len() as int) =~= front.subrange(at, front.len() as int).push(
            path.last(),
        ));
        assert forall|i: int| 0 <= i < name.len() implies #[trigger] name[i] != '/' by {
            if i < short.len() {
                assert(name[i] == short[i]);
            }
        }
    } else {
        assert(path.subrange(path.len() as int, path.len() as int) =~= seq![]);
    }
}

/// A source that comes is a flow of its provider's protocol, and is asked about
/// once, whatever its provider.
pub proof fn law_added_message(m: MonitorView, srcref: u64, provider: u32, name: Option<Seq<char>>)
    ensures
        ({
            let after = m.applied(MsgView::SrcAdded { srcref, provider }, name);
            &&& provider == 2 || provider == 3 ==> after.engine == m.engine.added(
                srcref,
                Proto::Tcp,
            )
            &&& provider == 4 || provider == 5 ==> after.engine == m.engine.added(
                srcref,
                Proto::Udp,
            )
            &&& provider < 2 || provider > 5 ==> after.engine == m.engine
            &&& after.requested == m.requested.insert(srcref)
            &&& m.requested.contains(srcref) ==> after.pending == m.pending
            &&& !m.requested.contains(srcref) ==> after.pending == m.pending + seq![srcref]
            &&& after.last_error == m.last_error
        }),
{
    assert(m.pending.push(srcref) =~= m.pending + seq![srcref]);
}

/// A source that goes is no flow any more, and may be asked about again.
pub proof fn law_removed_message(m: MonitorView, srcref: u64, name: Option<Seq<char>>)
    ensures
        ({
            let after = m.applied(MsgView::SrcRemoved { srcref }, name);
            &&& after.engine == m.engine.removed(srcref)
            &&& after.requested == m.requested.remove(srcref)
            &&& after.pending == m.pending
            &&& after.last_error == m.last_error
        }),
{
}

/// A descriptor with a name describes its flow as it stands, by the protocol of
/// its provider; one of a foreign provider does nothing.
pub proof fn law_description_message_applied(
    m: MonitorView,
    srcref: u64,
    provider: u32,
    desc: FlowDescView,
    name: Option<Seq<char>>,
)
    ensures
        ({
            let after = m.applied(MsgView::SrcDesc { srcref, provider, desc }, name);
            let shown = if desc.pname.len() == 0 && name is Some {
                FlowDescView {
                    pid: desc.pid,
                    pname: name->0,
                    local: desc.local,
                    remote: desc.remote,
                    tcp_state: desc.tcp_state,
                }
            } else {
                desc
            };
            &&& provider == 2 || provider == 3 ==> after.engine == m.engine.described(
                srcref,
                Proto::Tcp,
                shown,
            )
            &&& provider == 4 || provider == 5 ==> after.engine == m.engine.described(
                srcref,
                Proto::Udp,
                shown,
            )
            &&& provider < 2 || provider > 5 ==> after.engine == m.engine
            &&& after.requested == m.requested && after.pending == m.pending
            &&& after.last_error == m.last_error
        }),
{
}

/// Counters go to their flow; an update also describes it if it has a descriptor,
/// by the protocol of its provider, TCP for a foreign one, and under the name that
/// was looked up where it has none of its own.
pub proof fn law_counting_messages_applied(
    m: MonitorView,
    srcref: u64,
    provider: u32,
    counts: wire::Counts,
    desc: FlowDescView,
    name: Option<Seq<char>>,
)
    ensures
        m.applied(MsgView::SrcCounts { srcref, counts }, name) == (MonitorView {
            engine: m.engine.counted(srcref, counts),
            requested: m.requested,
            pending: m.pending,
            last_error: m.last_error,
        }),
        m.applied(MsgView::SrcUpdate { srcref, provider, counts, desc: None }, name) == (
        MonitorView {
            engine: m.engine.counted(srcref, counts),
            requested: m.requested,
            pending: m.pending,
            last_error: m.last_error,
        }),
        m.applied(MsgView::SrcUpdate { srcref, provider, counts, desc: Some(desc) }, name) == (
        MonitorView {
            engine: m.engine.described(
                srcref,
                if provider == 4 || provider == 5 {
                    Proto::Udp
                } else {
                    Proto::Tcp
                },
                if desc.pname.len() == 0 && name is Some && 2 <= provider <= 5 {
                    FlowDescView {
                        pid: desc.pid,
                        pname: name->0,
                        local: desc.local,
                        remote: desc.remote,
                        tcp_state: desc.tcp_state,
                    }
                } else {
                    desc
                },
            ).counted(srcref, counts),
            requested: m.requested,
            pending: m.pending,
            last_error: m.last_error,
        }),
{
}

/// A kernel error is remembered by its code, backpressure aside; success and what
/// is not modelled change nothing.
pub proof fn law_other_messages_applied(
    m: MonitorView,
    code: u32,
    msg_type: u32,
    name: Option<Seq<char>>,
)
    ensures
        m.applied(MsgView::Success, name) == m,
        m.applied(MsgView::Other { msg_type }, name) == m,
        m.applied(MsgView::Error { code: 55 }, name) == m,
        code != 55 ==> m.applied(MsgView::Error { code }, name) == (MonitorView {
            last_error: Some(code),
            engine: m.engine,
            requested: m.requested,
            pending: m.pending,
        }),
{
}

/// A name is wanted just for an unnamed descriptor of a subscribed provider, on
/// its own or in an update, and for its own process.
pub proof fn law_name_is_wanted_for_the_unnamed(
    srcref: u64,
    provider: u32,
    counts: wire::Counts,
    desc: FlowDescView,
)
    ensures
        ({
            let want = if 2 <= provider <= 5 && desc.pname.len() == 0 {
                Some(desc.pid)
            } else {
                None
            };
            &&& unnamed_pid(MsgView::SrcDesc { srcref, provider, desc }) == want
            &&& unnamed_pid(MsgView::SrcUpdate { srcref, provider, counts, desc: Some(desc) })
                == want
            &&& unnamed_pid(MsgView::SrcUpdate { srcref, provider, counts, desc: None }) is None
            &&& unnamed_pid(MsgView::SrcCounts { srcref, counts }) is None
            &&& unnamed_pid(MsgView::SrcAdded { srcref, provider }) is None
            &&& unnamed_pid(MsgView::SrcRemoved { srcref }) is None
        }),
{
}

/// A monitor starts with nothing seen, asked or wrong.
pub proof fn law_fresh_monitor_is_empty(hist_len: nat)
    ensures
        MonitorView::fresh(hist_len).engine == EngineView::fresh(hist_len),
        MonitorView::fresh(hist_len).requested == Set::<u64>::empty(),
        MonitorView::fresh(hist_len).pending.len() == 0,
        MonitorView::fresh(hist_len).last_error is None,
{
}

/// Messages are applied one by one, each to the state that the ones before it
/// left, with its own name.
pub proof fn law_each_message_is_applied(
    m: MonitorView,
    msgs: Seq<MsgView>,
    names: Seq<Option<String>>,
    msg: MsgView,
    name: Option<String>,
)
    ensures
        folded(m, seq![], seq![]) == m,
        folded(m, msgs.push(msg), names.push(name)) == folded(m, msgs, names).applied(
            msg,
            if name is Some {
                Some(name->0@)
            } else {
                None
            },
        ),
{
    assert(msgs.push(msg).drop_last() =~= msgs);
    assert(names.push(name).drop_last() =~= names);
}

/// The name that goes with a message is what the lookup gave for the process that
/// wants one, and no message without such a process has a name.
pub proof fn law_names_come_from_the_lookup<F: Fn(u32) -> Option<String>>(
    names: Seq<Option<String>>,
    msgs: Seq<MsgView>,
    lookup: F,
    i: int,
    pid: u32,
)
    requires
        looked_up(names, msgs, lookup),
        0 <= i < msgs.len(),
    ensures
        names.len() == msgs.len(),
        unnamed_pid(msgs[i]) == Some(pid) ==> lookup.ensures((pid,), names[i]),
        unnamed_pid(msgs[i]) is None ==> names[i] is None,
{
}

} // verus!
