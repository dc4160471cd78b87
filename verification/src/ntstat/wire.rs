//! The `com.apple.network.statistics` ("ntstat") kernel-control wire protocol.
//!
//! Constants, request layouts and bounds-checked parsers over bytes. Layouts
//! follow XNU's `bsd/net/ntstat.h` (`__NSTAT_REVISION__ 9`) and
//! `bsd/netinet/in_stat.h`. The parsers validate before they trust: a flow is
//! only surfaced if it decodes to a plausible pid and a known address family, so
//! on a layout that has moved a flow is skipped, never shown wrong.

use vstd::prelude::*;

verus! {

// ---- provider ids (nstat_provider_id_t) ------------------------------------

pub const NSTAT_PROVIDER_TCP_KERNEL: u32 = 2;

pub const NSTAT_PROVIDER_TCP_USERLAND: u32 = 3;

pub const NSTAT_PROVIDER_UDP_KERNEL: u32 = 4;

pub const NSTAT_PROVIDER_UDP_USERLAND: u32 = 5;

// ---- message types (nstat_msg_hdr.type) ------------------------------------

pub const NSTAT_MSG_TYPE_SUCCESS: u32 = 0;

pub const NSTAT_MSG_TYPE_ERROR: u32 = 1;

pub const NSTAT_MSG_TYPE_ADD_ALL_SRCS: u32 = 1002;

pub const NSTAT_MSG_TYPE_QUERY_SRC: u32 = 1004;

pub const NSTAT_MSG_TYPE_GET_SRC_DESC: u32 = 1005;

pub const NSTAT_MSG_TYPE_SRC_ADDED: u32 = 10001;

pub const NSTAT_MSG_TYPE_SRC_REMOVED: u32 = 10002;

pub const NSTAT_MSG_TYPE_SRC_DESC: u32 = 10003;

pub const NSTAT_MSG_TYPE_SRC_COUNTS: u32 = 10004;

pub const NSTAT_MSG_TYPE_SRC_UPDATE: u32 = 10006;

// ---- well-known values -----------------------------------------------------

/// Poll/describe every source the kernel will show us in one request.
pub const NSTAT_SRC_REF_ALL: u64 = 0xffff_ffff_ffff_ffff;

/// `NSTAT_MSG_HDR_FLAG_SUPPORTS_AGGREGATE`: several sub-messages packed into one
/// datagram are understood.
pub const NSTAT_MSG_HDR_FLAG_SUPPORTS_AGGREGATE: u16 = 1;

/// `NSTAT_FILTER_FLAGS_V1_USAGE`: accept every interface class. The bits are
/// unknown, loopback, cellular, wifi, wired, AWDL, expensive, cellular fallback,
/// companion link, constrained, local and non-local.
pub const NSTAT_FILTER_FLAGS_V1_USAGE: u64 = 0x1f7f;

// Darwin address families.
pub const AF_INET: u8 = 2;

pub const AF_INET6: u8 = 30;

// ---- reply field offsets ---------------------------------------------------
// Offsets into a single message, from the start of its nstat_msg_hdr.

/// `nstat_msg_src_added`: srcref @16, provider @24.
pub const SRC_ADDED_SRCREF: usize = 16;

pub const SRC_ADDED_PROVIDER: usize = 24;

/// `nstat_msg_src_counts`: hdr(16) srcref(8) event_flags(8) then `nstat_counts`.
pub const SRC_COUNTS_SRCREF: usize = 16;

pub const SRC_COUNTS_COUNTS: usize = 32;

/// `nstat_msg_src_description`: hdr(16) srcref(8) event_flags(8) provider(4)
/// reserved(4) then the descriptor payload.
pub const SRC_DESC_SRCREF: usize = 16;

pub const SRC_DESC_PROVIDER: usize = 32;

pub const SRC_DESC_DATA: usize = 40;

/// `nstat_msg_src_update`: hdr(16) srcref(8) event_flags(8) counts(112)
/// provider(4) reserved(4) then the descriptor payload.
pub const SRC_UPDATE_SRCREF: usize = 16;

pub const SRC_UPDATE_COUNTS: usize = 32;

pub const SRC_UPDATE_PROVIDER: usize = 144;

pub const SRC_UPDATE_DATA: usize = 152;

/// Within `nstat_counts`: rxbytes @8, txbytes @24 (each u64).
pub const COUNTS_RXBYTES: usize = 8;

pub const COUNTS_TXBYTES: usize = 24;

// `nstat_tcp_descriptor` field offsets.
pub const TCP_STATE: usize = 76;

pub const TCP_PID: usize = 116;

pub const TCP_LOCAL: usize = 124;

pub const TCP_REMOTE: usize = 152;

pub const TCP_PNAME: usize = 196;

/// Smallest TCP descriptor that is parsed (through the end of pname).
pub const TCP_MIN_LEN: usize = 260;

// `nstat_udp_descriptor` field offsets.
pub const UDP_LOCAL: usize = 56;

pub const UDP_REMOTE: usize = 84;

pub const UDP_PID: usize = 128;

pub const UDP_PNAME: usize = 132;

/// Smallest UDP descriptor that is parsed (through the end of pname).
pub const UDP_MIN_LEN: usize = 196;

/// Width of a descriptor's process-name field.
pub const PNAME_LEN: usize = 64;

/// `sockaddr_in6`, the larger arm of the local/remote union.
pub const SOCKADDR_LEN: usize = 28;

/// Size of `nstat_msg_hdr`.
pub const HDR_LEN: usize = 16;

// ---- numbers in bytes ------------------------------------------------------

/// The number whose base-256 digits are `s`, least significant first.
pub open spec fn le(s: Seq<u8>) -> nat
    decreases s.len(),
{
    if s.len() == 0 {
        0
    } else {
        s[0] as nat + 256 * le(s.drop_first())
    }
}

/// The number whose base-256 digits are `s`, most significant first.
pub open spec fn be(s: Seq<u8>) -> nat
    decreases s.len(),
{
    if s.len() == 0 {
        0
    } else {
        256 * be(s.drop_last()) + s.last() as nat
    }
}

/// The little-endian number in `buf[off..off + n]`.
pub open spec fn le_at(buf: Seq<u8>, off: int, n: int) -> nat {
    le(buf.subrange(off, off + n))
}

/// The big-endian number in `buf[off..off + n]`.
pub open spec fn be_at(buf: Seq<u8>, off: int, n: int) -> nat {
    be(buf.subrange(off, off + n))
}

/// The `n` low base-256 digits of `v`, least significant first.
pub open spec fn le_bytes(v: nat, n: nat) -> Seq<u8>
    decreases n,
{
    if n == 0 {
        seq![]
    } else {
        seq![(v % 256) as u8] + le_bytes(v / 256, (n - 1) as nat)
    }
}

proof fn lemma_le2(s: Seq<u8>)
    requires
        s.len() == 2,
    ensures
        le(s) == s[0] + 256 * s[1],
{
    reveal_with_fuel(le, 3);
}

proof fn lemma_le4(s: Seq<u8>)
    requires
        s.len() == 4,
    ensures
        le(s) == s[0] + 256 * s[1] + 65536 * s[2] + 16777216 * s[3],
{
    reveal_with_fuel(le, 5);
}

proof fn lemma_le8(s: Seq<u8>)
    requires
        s.len() == 8,
    ensures
        le(s) == le(s.take(4)) + 4294967296 * le(s.skip(4)),
        le(s.take(4)) < 4294967296,
        le(s.skip(4)) < 4294967296,
{
    reveal_with_fuel(le, 9);
    lemma_le4(s.take(4));
    lemma_le4(s.skip(4));
}

proof fn lemma_be2(s: Seq<u8>)
    requires
        s.len() == 2,
    ensures
        be(s) == 256 * s[0] + s[1],
{
    reveal_with_fuel(be, 3);
}

proof fn lemma_be4(s: Seq<u8>)
    requires
        s.len() == 4,
    ensures
        be(s) == 16777216 * s[0] + 65536 * s[1] + 256 * s[2] + s[3],
{
    reveal_with_fuel(be, 5);
}

fn read_u32(buf: &[u8], off: usize) -> (r: Option<u32>)
    requires
        off + 4 <= usize::MAX,
    ensures
        off + 4 <= buf@.len() ==> r == Some(le_at(buf@, off as int, 4) as u32) && le_at(
            buf@,
            off as int,
            4,
        ) <= u32::MAX,
        off + 4 > buf@.len() ==> r is None,
{
    if off + 4 <= buf.len() {
        proof {
            lemma_le4(buf@.subrange(off as int, off + 4));
        }
        Some(
            buf[off] as u32 + 256 * (buf[off + 1] as u32) + 65536 * (buf[off + 2] as u32)
                + 16777216 * (buf[off + 3] as u32),
        )
    } else {
        None
    }
}

fn read_u64(buf: &[u8], off: usize) -> (r: Option<u64>)
    requires
        off + 8 <= usize::MAX,
    ensures
        off + 8 <= buf@.len() ==> r == Some(le_at(buf@, off as int, 8) as u64) && le_at(
            buf@,
            off as int,
            8,
        ) <= u64::MAX,
        off + 8 > buf@.len() ==> r is None,
{
    if off + 8 > buf.len() {
        return None;
    }
    match (read_u32(buf, off), read_u32(buf, off + 4)) {
        (Some(lo), Some(hi)) => {
            proof {
                let s = buf@.subrange(off as int, off + 8);
                lemma_le8(s);
                assert(s.take(4) =~= buf@.subrange(off as int, off + 4));
                assert(s.skip(4) =~= buf@.subrange(off + 4, off + 8));
            }
            Some(lo as u64 + 4294967296 * (hi as u64))
        },
        _ => None,
    }
}

// ---- parsed results --------------------------------------------------------

/// An internet address, as the number its octets spell (most significant first).
#[derive(Clone, Copy, Debug, PartialEq, Eq, Structural)]
pub enum IpAddr {
    V4(u32),
    V6(u128),
}

/// A network endpoint decoded from a `sockaddr_in`/`sockaddr_in6` union.
#[derive(Clone, Copy, Debug, PartialEq, Eq, Structural)]
pub struct Endpoint {
    pub ip: IpAddr,
    pub port: u16,
}

/// A flow's identity, parsed from a TCP/UDP descriptor.
#[derive(Clone, Debug, PartialEq, Eq)]
pub struct FlowDesc {
    pub pid: u32,
    pub pname: String,
    pub local: Option<Endpoint>,
    pub remote: Option<Endpoint>,
    /// TCP connection state (`nstat_tcp_descriptor.state`); 0 for UDP.
    pub tcp_state: u32,
}

/// What a [`FlowDesc`] says, its name as characters.
pub ghost struct FlowDescView {
    pub pid: u32,
    pub pname: Seq<char>,
    pub local: Option<Endpoint>,
    pub remote: Option<Endpoint>,
    pub tcp_state: u32,
}

impl View for FlowDesc {
    type V = FlowDescView;

    open spec fn view(&self) -> FlowDescView {
        FlowDescView {
            pid: self.pid,
            pname: self.pname@,
            local: self.local,
            remote: self.remote,
            tcp_state: self.tcp_state,
        }
    }
}

/// Counters lifted from an `nstat_counts` (cumulative rx/tx byte totals).
#[derive(Clone, Copy, Debug, Default, PartialEq, Eq, Structural)]
pub struct Counts {
    pub rx_bytes: u64,
    pub tx_bytes: u64,
}

/// One decoded message from the control socket.
#[derive(Clone, Debug, PartialEq, Eq)]
pub enum Msg {
    SrcAdded { srcref: u64, provider: u32 },
    SrcRemoved { srcref: u64 },
    SrcDesc { srcref: u64, provider: u32, desc: FlowDesc },
    SrcCounts { srcref: u64, counts: Counts },
    /// A bundled update (counts + descriptor).
    SrcUpdate { srcref: u64, provider: u32, counts: Counts, desc: Option<FlowDesc> },
    Success,
    Error { code: u32 },
    /// A recognised header whose body is not modelled (route/ifnet/sysinfo/…).
    Other { msg_type: u32 },
}

/// What a [`Msg`] says, names as characters.
pub ghost enum MsgView {
    SrcAdded { srcref: u64, provider: u32 },
    SrcRemoved { srcref: u64 },
    SrcDesc { srcref: u64, provider: u32, desc: FlowDescView },
    SrcCounts { srcref: u64, counts: Counts },
    SrcUpdate { srcref: u64, provider: u32, counts: Counts, desc: Option<FlowDescView> },
    Success,
    Error { code: u32 },
    Other { msg_type: u32 },
}

/// The view of an optional descriptor.
pub open spec fn desc_view(d: Option<FlowDesc>) -> Option<FlowDescView> {
    match d {
        Some(d) => Some(d@),
        None => None,
    }
}

impl View for Msg {
    type V = MsgView;

    open spec fn view(&self) -> MsgView {
        match *self {
            Msg::SrcAdded { srcref, provider } => MsgView::SrcAdded { srcref, provider },
            Msg::SrcRemoved { srcref } => MsgView::SrcRemoved { srcref },
            Msg::SrcDesc { srcref, provider, desc } => MsgView::SrcDesc {
                srcref,
                provider,
                desc: desc@,
            },
            Msg::SrcCounts { srcref, counts } => MsgView::SrcCounts { srcref, counts },
            Msg::SrcUpdate { srcref, provider, counts, desc } => MsgView::SrcUpdate {
                srcref,
                provider,
                counts,
                desc: desc_view(desc),
            },
            Msg::Success => MsgView::Success,
            Msg::Error { code } => MsgView::Error { code },
            Msg::Other { msg_type } => MsgView::Other { msg_type },
        }
    }
}

/// The views of a sequence of messages.
pub open spec fn msg_views(s: Seq<Msg>) -> Seq<MsgView> {
    s.map_values(|m: Msg| m@)
}

/// True for the two TCP providers (controls which descriptor parser to use).
pub fn is_tcp_provider(p: u32) -> (r: bool)
    ensures
        r == tcp_provider(p),
{
    p == NSTAT_PROVIDER_TCP_KERNEL || p == NSTAT_PROVIDER_TCP_USERLAND
}

/// True for the two UDP providers.
pub fn is_udp_provider(p: u32) -> (r: bool)
    ensures
        r == udp_provider(p),
{
    p == NSTAT_PROVIDER_UDP_KERNEL || p == NSTAT_PROVIDER_UDP_USERLAND
}

/// The providers of TCP flows, in the kernel and in userland.
pub open spec fn tcp_provider(p: u32) -> bool {
    p == NSTAT_PROVIDER_TCP_KERNEL || p == NSTAT_PROVIDER_TCP_USERLAND
}

/// The providers of UDP flows, in the kernel and in userland.
pub open spec fn udp_provider(p: u32) -> bool {
    p == NSTAT_PROVIDER_UDP_KERNEL || p == NSTAT_PROVIDER_UDP_USERLAND
}

/// The endpoint that the socket address at `off` stands for: `sa_family` @1, the
/// port @2 and the address @4 (v4) or @8 (v6), all in network order. An unknown
/// family, the unspecified address with port 0 and an address that runs past the
/// buffer stand for none.
pub open spec fn endpoint_at(buf: Seq<u8>, off: int) -> Option<Endpoint> {
    if off + SOCKADDR_LEN > buf.len() {
        None
    } else {
        let port = be_at(buf, off + 2, 2) as u16;
        let v4 = be_at(buf, off + 4, 4) as u32;
        let v6 = be_at(buf, off + 8, 16) as u128;
        if buf[off + 1] == AF_INET && !(v4 == 0 && port == 0) {
            Some(Endpoint { ip: IpAddr::V4(v4), port })
        } else if buf[off + 1] == AF_INET6 && !(v6 == 0 && port == 0) {
            Some(Endpoint { ip: IpAddr::V6(v6), port })
        } else {
            None
        }
    }
}

fn read_be16(buf: &[u8], off: usize) -> (r: u16)
    requires
        off + 2 <= buf@.len(),
    ensures
        r == be_at(buf@, off as int, 2),
{
    proof {
        lemma_be2(buf@.subrange(off as int, off + 2));
    }
    256 * (buf[off] as u16) + buf[off + 1] as u16
}

fn read_be32(buf: &[u8], off: usize) -> (r: u32)
    requires
        off + 4 <= buf@.len(),
    ensures
        r == be_at(buf@, off as int, 4),
{
    proof {
        lemma_be4(buf@.subrange(off as int, off + 4));
    }
    16777216 * (buf[off] as u32) + 65536 * (buf[off + 1] as u32) + 256 * (buf[off + 2] as u32) + (
    buf[off + 3] as u32)
}

fn read_be128(buf: &[u8], off: usize) -> (r: u128)
    requires
        off + 16 <= buf@.len(),
    ensures
        r == be_at(buf@, off as int, 16),
{
    let len: usize = buf.len();
    let mut v: u128 = 0;
    let mut i: usize = 0;
    let ghost mut bound: nat = 1;
    while i < 16
        invariant
            i <= 16,
            len == buf@.len(),
            off + 16 <= buf@.len(),
            v == be_at(buf@, off as int, i as int),
            v < bound,
            bound == pow256(i as nat),
        decreases 16 - i,
    {
        let ghost s = buf@.subrange(off as int, off + i + 1);
        assert(s.drop_last() =~= buf@.subrange(off as int, off + i));
        proof {
            lemma_pow256_bound((i + 1) as nat);
            bound = pow256((i + 1) as nat);
        }
        v = 256 * v + buf[off + i] as u128;
        i += 1;
    }
    v
}

/// 256 to the power of `n`.
pub open spec fn pow256(n: nat) -> nat
    decreases n,
{
    if n == 0 {
        1
    } else {
        256 * pow256((n - 1) as nat)
    }
}

proof fn lemma_pow256_bound(n: nat)
    requires
        n <= 16,
    ensures
        pow256(n) <= 0x1_0000_0000_0000_0000_0000_0000_0000_0000,
{
    reveal_with_fuel(pow256, 17);
}

/// Decode a `sockaddr` union (`sockaddr_in`/`sockaddr_in6`) at `off`.
///
/// Returns `None` for an unknown family and for the unspecified address with
/// port 0 (an unconnected UDP socket).
pub fn parse_sockaddr(buf: &[u8], off: usize) -> (r: Option<Endpoint>)
    requires
        off + SOCKADDR_LEN <= usize::MAX,
    ensures
        r == endpoint_at(buf@, off as int),
{
    if off + SOCKADDR_LEN > buf.len() {
        return None;
    }
    let family: u8 = buf[off + 1];
    let port: u16 = read_be16(buf, off + 2);
    let v4: u32 = read_be32(buf, off + 4);
    let v6: u128 = read_be128(buf, off + 8);
    if family == AF_INET && !(v4 == 0 && port == 0) {
        Some(Endpoint { ip: IpAddr::V4(v4), port })
    } else if family == AF_INET6 && !(v6 == 0 && port == 0) {
        Some(Endpoint { ip: IpAddr::V6(v6), port })
    } else {
        None
    }
}

// ---- process names ---------------------------------------------------------

/// What `String::from_utf8_lossy` makes of the bytes.
pub uninterp spec fn lossy_text(bytes: Seq<u8>) -> Seq<char>;

/// `String::from_utf8_lossy`: bytes that are UTF-8 give the text they encode.
/// What stands for bytes that are not, beyond depending on them alone, is left
/// unsaid.
#[verifier::external_body]
pub(crate) fn utf8_lossy(bytes: &[u8]) -> (r: String)
    ensures
        r@ == lossy_text(bytes@),
        vstd::utf8::valid_utf8(bytes@) ==> r@ == vstd::utf8::decode_utf8(bytes@),
{
    String::from_utf8_lossy(bytes).into_owned()
}

/// The characters of category Cc, among them the escape that starts a terminal
/// control sequence.
pub open spec fn is_control(c: char) -> bool {
    c as u32 <= 0x1f || 0x7f <= c as u32 <= 0x9f
}

/// `c`, or U+FFFD in place of a control character.
pub open spec fn printable(c: char) -> char {
    if is_control(c) {
        '\u{fffd}'
    } else {
        c
    }
}

/// `s` with U+FFFD in place of each control character.
pub open spec fn cleaned(s: Seq<char>) -> Seq<char> {
    s.map_values(|c: char| printable(c))
}

/// The bytes before the first zero byte, or all of them.
pub open spec fn until_nul(s: Seq<u8>) -> Seq<u8>
    decreases s.len(),
{
    if s.len() == 0 || s[0] == 0 {
        seq![]
    } else {
        seq![s[0]] + until_nul(s.drop_first())
    }
}

/// The name field at `off`: `PNAME_LEN` bytes, or as many as the buffer has.
pub open spec fn name_field(buf: Seq<u8>, off: int) -> Seq<u8> {
    if off + PNAME_LEN <= buf.len() {
        buf.subrange(off, off + PNAME_LEN)
    } else if off <= buf.len() {
        buf.skip(off)
    } else {
        seq![]
    }
}

/// The process name in the field at `off`.
pub open spec fn name_at(buf: Seq<u8>, off: int) -> Seq<char> {
    cleaned(lossy_text(until_nul(name_field(buf, off))))
}

/// `s` with U+FFFD in place of each control character, so that a hostile name
/// can't smuggle terminal escapes into the UI.
pub fn clean_name(s: &str) -> (r: String)
    ensures
        r@ == cleaned(s@),
{
    let mut r: String = String::new();
    for c in it: s.chars()
        invariant
            it.seq() == s@,
            r@ == cleaned(s@.take(it.index() as int)),
    {
        let ghost k = it.index() as int;
        let x: u32 = c as u32;
        if x <= 0x1f || (0x7f <= x && x <= 0x9f) {
            r.push('\u{fffd}');
        } else {
            r.push(c);
        }
        assert(r@ =~= cleaned(s@.take(k + 1)));
    }
    assert(s@.take(s@.len() as int) =~= s@);
    r
}

proof fn lemma_until_nul(s: Seq<u8>, n: int)
    requires
        0 <= n <= s.len(),
        forall|i: int| 0 <= i < n ==> s[i] != 0,
        n < s.len() ==> s[n] == 0,
    ensures
        until_nul(s) == s.take(n),
    decreases s.len(),
{
    if n > 0 {
        lemma_until_nul(s.drop_first(), n - 1);
        assert(s.take(n) =~= seq![s[0]] + s.drop_first().take(n - 1));
    } else {
        assert(s.take(0) =~= seq![]);
    }
}

/// The bytes before the first zero byte, or all of them.
pub fn before_nul(raw: &[u8]) -> (r: &[u8])
    ensures
        r@ == until_nul(raw@),
{
    let mut end: usize = 0;
    while end < raw.len() && raw[end] != 0
        invariant
            end <= raw@.len(),
            forall|i: int| 0 <= i < end ==> raw@[i] != 0,
        ensures
            end < raw@.len() ==> raw@[end as int] == 0,
        decreases raw@.len() - end,
    {
        end += 1;
    }
    proof {
        lemma_until_nul(raw@, end as int);
    }
    vstd::slice::slice_subrange(raw, 0, end)
}

/// Decode a NUL-terminated, fixed-width process name field, replacing control
/// characters.
pub fn parse_pname(buf: &[u8], off: usize) -> (r: String)
    requires
        off + PNAME_LEN <= usize::MAX,
    ensures
        r@ == name_at(buf@, off as int),
        vstd::utf8::valid_utf8(until_nul(name_field(buf@, off as int))) ==> r@ == cleaned(
            vstd::utf8::decode_utf8(until_nul(name_field(buf@, off as int))),
        ),
{
    let start: usize = if off <= buf.len() { off } else { buf.len() };
    let stop: usize = if off + PNAME_LEN <= buf.len() { off + PNAME_LEN } else { buf.len() };
    let raw: &[u8] = vstd::slice::slice_subrange(buf, start, stop);
    assert(raw@ =~= name_field(buf@, off as int));
    let text: &[u8] = before_nul(raw);
    clean_name(utf8_lossy(text).as_str())
}

// ---- descriptors -----------------------------------------------------------

/// A descriptor that looks real: a plausible pid and at least one endpoint with
/// a known address family.
pub open spec fn plausible(d: FlowDescView) -> bool {
    0 < d.pid < 0x0040_0000 && (d.local is Some || d.remote is Some)
}

/// `d`, unless a shifted layout must have produced it.
pub open spec fn trusted(d: FlowDescView) -> Option<FlowDescView> {
    if plausible(d) {
        Some(d)
    } else {
        None
    }
}

/// The fields of an `nstat_tcp_descriptor`.
pub open spec fn tcp_fields(data: Seq<u8>) -> FlowDescView {
    FlowDescView {
        pid: le_at(data, TCP_PID as int, 4) as u32,
        pname: name_at(data, TCP_PNAME as int),
        local: endpoint_at(data, TCP_LOCAL as int),
        remote: endpoint_at(data, TCP_REMOTE as int),
        tcp_state: le_at(data, TCP_STATE as int, 4) as u32,
    }
}

/// The fields of an `nstat_udp_descriptor`.
pub open spec fn udp_fields(data: Seq<u8>) -> FlowDescView {
    FlowDescView {
        pid: le_at(data, UDP_PID as int, 4) as u32,
        pname: name_at(data, UDP_PNAME as int),
        local: endpoint_at(data, UDP_LOCAL as int),
        remote: endpoint_at(data, UDP_REMOTE as int),
        tcp_state: 0,
    }
}

/// The flow that a TCP descriptor payload describes, if it can be trusted.
pub open spec fn tcp_desc(data: Seq<u8>) -> Option<FlowDescView> {
    if data.len() < TCP_MIN_LEN {
        None
    } else {
        trusted(tcp_fields(data))
    }
}

/// The flow that a UDP descriptor payload describes, if it can be trusted.
pub open spec fn udp_desc(data: Seq<u8>) -> Option<FlowDescView> {
    if data.len() < UDP_MIN_LEN {
        None
    } else {
        trusted(udp_fields(data))
    }
}

/// The flow that a descriptor payload of the provider describes.
pub open spec fn descriptor(provider: u32, data: Seq<u8>) -> Option<FlowDescView> {
    if tcp_provider(provider) {
        tcp_desc(data)
    } else if udp_provider(provider) {
        udp_desc(data)
    } else {
        None
    }
}

/// True if a decoded descriptor looks real. Guards against a shifted layout
/// (different macOS) feeding garbage offsets: better to drop a flow than show
/// wrong data.
pub fn looks_valid(desc: &FlowDesc) -> (r: bool)
    ensures
        r == plausible(desc@),
{
    desc.pid > 0 && desc.pid < 0x0040_0000 && (desc.local.is_some() || desc.remote.is_some())
}

/// Parse an `nstat_tcp_descriptor`. `data` is the descriptor payload only.
/// Returns `None` if too short to trust or if it fails validation.
pub fn parse_tcp_desc(data: &[u8]) -> (r: Option<FlowDesc>)
    ensures
        desc_view(r) == tcp_desc(data@),
{
    if data.len() < TCP_MIN_LEN {
        return None;
    }
    match (read_u32(data, TCP_PID), read_u32(data, TCP_STATE)) {
        (Some(pid), Some(tcp_state)) => {
            let desc = FlowDesc {
                pid,
                pname: parse_pname(data, TCP_PNAME),
                local: parse_sockaddr(data, TCP_LOCAL),
                remote: parse_sockaddr(data, TCP_REMOTE),
                tcp_state,
            };
            if looks_valid(&desc) {
                Some(desc)
            } else {
                None
            }
        },
        _ => None,
    }
}

/// Parse an `nstat_udp_descriptor` (the payload only).
pub fn parse_udp_desc(data: &[u8]) -> (r: Option<FlowDesc>)
    ensures
        desc_view(r) == udp_desc(data@),
{
    if data.len() < UDP_MIN_LEN {
        return None;
    }
    match read_u32(data, UDP_PID) {
        Some(pid) => {
            let desc = FlowDesc {
                pid,
                pname: parse_pname(data, UDP_PNAME),
                local: parse_sockaddr(data, UDP_LOCAL),
                remote: parse_sockaddr(data, UDP_REMOTE),
                tcp_state: 0,
            };
            if looks_valid(&desc) {
                Some(desc)
            } else {
                None
            }
        },
        None => None,
    }
}

/// Pick the descriptor parser for a provider id.
pub fn parse_desc(provider: u32, data: &[u8]) -> (r: Option<FlowDesc>)
    ensures
        desc_view(r) == descriptor(provider, data@),
{
    if is_tcp_provider(provider) {
        parse_tcp_desc(data)
    } else if is_udp_provider(provider) {
        parse_udp_desc(data)
    } else {
        None
    }
}

// ---- messages --------------------------------------------------------------

/// The counters of the `nstat_counts` at `base`.
pub open spec fn counts_at(buf: Seq<u8>, base: int) -> Counts {
    Counts {
        rx_bytes: le_at(buf, base + COUNTS_RXBYTES, 8) as u64,
        tx_bytes: le_at(buf, base + COUNTS_TXBYTES, 8) as u64,
    }
}

fn parse_counts(buf: &[u8], base: usize) -> (r: Option<Counts>)
    requires
        base + COUNTS_TXBYTES + 8 <= usize::MAX,
    ensures
        base + COUNTS_TXBYTES + 8 <= buf@.len() ==> r == Some(counts_at(buf@, base as int)),
        base + COUNTS_TXBYTES + 8 > buf@.len() ==> r is None,
{
    match (read_u64(buf, base + COUNTS_RXBYTES), read_u64(buf, base + COUNTS_TXBYTES)) {
        (Some(rx_bytes), Some(tx_bytes)) => Some(Counts { rx_bytes, tx_bytes }),
        _ => None,
    }
}

/// The message that `msg` (header included) holds, given its header's type. A
/// body too short for its fields, or a descriptor not to be trusted, holds none;
/// the exceptions are an error without a code, which counts as code 0, and an
/// update, whose descriptor may be missing.
pub open spec fn message(msg_type: u32, msg: Seq<u8>) -> Option<MsgView> {
    if msg_type == NSTAT_MSG_TYPE_SUCCESS {
        Some(MsgView::Success)
    } else if msg_type == NSTAT_MSG_TYPE_ERROR {
        Some(MsgView::Error { code: if msg.len() >= 20 { le_at(msg, 16, 4) as u32 } else { 0 } })
    } else if msg_type == NSTAT_MSG_TYPE_SRC_ADDED {
        if msg.len() >= SRC_ADDED_PROVIDER + 4 {
            Some(
                MsgView::SrcAdded {
                    srcref: le_at(msg, SRC_ADDED_SRCREF as int, 8) as u64,
                    provider: le_at(msg, SRC_ADDED_PROVIDER as int, 4) as u32,
                },
            )
        } else {
            None
        }
    } else if msg_type == NSTAT_MSG_TYPE_SRC_REMOVED {
        if msg.len() >= SRC_ADDED_SRCREF + 8 {
            Some(MsgView::SrcRemoved { srcref: le_at(msg, SRC_ADDED_SRCREF as int, 8) as u64 })
        } else {
            None
        }
    } else if msg_type == NSTAT_MSG_TYPE_SRC_COUNTS {
        if msg.len() >= SRC_COUNTS_COUNTS + COUNTS_TXBYTES + 8 {
            Some(
                MsgView::SrcCounts {
                    srcref: le_at(msg, SRC_COUNTS_SRCREF as int, 8) as u64,
                    counts: counts_at(msg, SRC_COUNTS_COUNTS as int),
                },
            )
        } else {
            None
        }
    } else if msg_type == NSTAT_MSG_TYPE_SRC_DESC {
        if msg.len() >= SRC_DESC_DATA {
            let provider = le_at(msg, SRC_DESC_PROVIDER as int, 4) as u32;
            match descriptor(provider, msg.skip(SRC_DESC_DATA as int)) {
                Some(desc) => Some(
                    MsgView::SrcDesc {
                        srcref: le_at(msg, SRC_DESC_SRCREF as int, 8) as u64,
                        provider,
                        desc,
                    },
                ),
                None => None,
            }
        } else {
            None
        }
    } else if msg_type == NSTAT_MSG_TYPE_SRC_UPDATE {
        if msg.len() >= SRC_UPDATE_PROVIDER + 4 {
            let provider = le_at(msg, SRC_UPDATE_PROVIDER as int, 4) as u32;
            Some(
                MsgView::SrcUpdate {
                    srcref: le_at(msg, SRC_UPDATE_SRCREF as int, 8) as u64,
                    provider,
                    counts: counts_at(msg, SRC_UPDATE_COUNTS as int),
                    desc: if msg.len() >= SRC_UPDATE_DATA {
                        descriptor(provider, msg.skip(SRC_UPDATE_DATA as int))
                    } else {
                        None
                    },
                },
            )
        } else {
            None
        }
    } else {
        Some(MsgView::Other { msg_type })
    }
}

/// The view of an optional message.
pub open spec fn msg_view(m: Option<Msg>) -> Option<MsgView> {
    match m {
        Some(m) => Some(m@),
        None => None,
    }
}

/// Decode a single message given its `nstat_msg_hdr.type` and the full message
/// bytes (header included). Unknown / unmodelled types map to [`Msg::Other`].
pub fn parse_message(msg_type: u32, msg: &[u8]) -> (r: Option<Msg>)
    ensures
        msg_view(r) == message(msg_type, msg@),
{
    if msg_type == NSTAT_MSG_TYPE_SUCCESS {
        return Some(Msg::Success);
    }
    if msg_type == NSTAT_MSG_TYPE_ERROR {
        let code: u32 = match read_u32(msg, 16) {
            Some(code) => code,
            None => 0,
        };
        return Some(Msg::Error { code });
    }
    if msg_type == NSTAT_MSG_TYPE_SRC_ADDED {
        return match (read_u64(msg, SRC_ADDED_SRCREF), read_u32(msg, SRC_ADDED_PROVIDER)) {
            (Some(srcref), Some(provider)) => Some(Msg::SrcAdded { srcref, provider }),
            _ => None,
        };
    }
    if msg_type == NSTAT_MSG_TYPE_SRC_REMOVED {
        return match read_u64(msg, SRC_ADDED_SRCREF) {
            Some(srcref) => Some(Msg::SrcRemoved { srcref }),
            None => None,
        };
    }
    if msg_type == NSTAT_MSG_TYPE_SRC_COUNTS {
        return match (read_u64(msg, SRC_COUNTS_SRCREF), parse_counts(msg, SRC_COUNTS_COUNTS)) {
            (Some(srcref), Some(counts)) => Some(Msg::SrcCounts { srcref, counts }),
            _ => None,
        };
    }
    if msg_type == NSTAT_MSG_TYPE_SRC_DESC {
        return parse_src_desc(msg);
    }
    if msg_type == NSTAT_MSG_TYPE_SRC_UPDATE {
        return parse_src_update(msg);
    }
    Some(Msg::Other { msg_type })
}

fn parse_src_desc(msg: &[u8]) -> (r: Option<Msg>)
    ensures
        msg_view(r) == message(NSTAT_MSG_TYPE_SRC_DESC, msg@),
{
    if msg.len() < SRC_DESC_DATA {
        return None;
    }
    match (read_u64(msg, SRC_DESC_SRCREF), read_u32(msg, SRC_DESC_PROVIDER)) {
        (Some(srcref), Some(provider)) => {
            let data: &[u8] = vstd::slice::slice_subrange(msg, SRC_DESC_DATA, msg.len());
            match parse_desc(provider, data) {
                Some(desc) => Some(Msg::SrcDesc { srcref, provider, desc }),
                None => None,
            }
        },
        _ => None,
    }
}

fn parse_src_update(msg: &[u8]) -> (r: Option<Msg>)
    ensures
        msg_view(r) == message(NSTAT_MSG_TYPE_SRC_UPDATE, msg@),
{
    let srcref: Option<u64> = read_u64(msg, SRC_UPDATE_SRCREF);
    let counts: Option<Counts> = parse_counts(msg, SRC_UPDATE_COUNTS);
    let provider: Option<u32> = read_u32(msg, SRC_UPDATE_PROVIDER);
    match (srcref, counts, provider) {
        (Some(srcref), Some(counts), Some(provider)) => {
            let desc: Option<FlowDesc> = if msg.len() >= SRC_UPDATE_DATA {
                let data: &[u8] = vstd::slice::slice_subrange(msg, SRC_UPDATE_DATA, msg.len());
                parse_desc(provider, data)
            } else {
                None
            };
            Some(Msg::SrcUpdate { srcref, provider, counts, desc })
        },
        _ => None,
    }
}

// ---- headers and datagrams -------------------------------------------------

/// `nstat_msg_hdr` — 16 bytes, prefixes every message in both directions.
#[derive(Clone, Copy, Debug, Default, PartialEq, Eq, Structural)]
pub struct NstatMsgHdr {
    /// Echoed back on replies; a request id / type tag.
    pub context: u64,
    pub msg_type: u32,
    pub length: u16,
    pub flags: u16,
}

/// The header that the first sixteen bytes of a message spell.
pub open spec fn header(bytes: Seq<u8>) -> NstatMsgHdr {
    NstatMsgHdr {
        context: le_at(bytes, 0, 8) as u64,
        msg_type: le_at(bytes, 8, 4) as u32,
        length: le_at(bytes, 12, 2) as u16,
        flags: le_at(bytes, 14, 2) as u16,
    }
}

/// `bytemuck::pod_read_unaligned` on two 64-bit words: it copies the bytes into
/// an aligned value and panics unless there are exactly as many as the value
/// has. The words are little-endian, so each is the little-endian number its
/// eight bytes spell, whatever the machine's own order.
#[verifier::external_body]
fn read_words(bytes: &[u8]) -> (r: (u64, u64))
    requires
        bytes@.len() == 16,
    ensures
        r.0 == le_at(bytes@, 0, 8),
        r.1 == le_at(bytes@, 8, 8),
{
    let words: [u64; 2] = bytemuck::pod_read_unaligned(bytes);
    (u64::from_le(words[0]), u64::from_le(words[1]))
}

proof fn lemma_header_word(bytes: Seq<u8>)
    requires
        bytes.len() >= HDR_LEN,
    ensures
        le_at(bytes, 8, 8) == le_at(bytes, 8, 4) + 4294967296 * le_at(bytes, 12, 2)
            + 281474976710656 * le_at(bytes, 14, 2),
        le_at(bytes, 8, 4) < 4294967296,
        le_at(bytes, 12, 2) < 65536,
        le_at(bytes, 14, 2) < 65536,
{
    let s = bytes.subrange(8, 16);
    lemma_le8(s);
    assert(s.take(4) =~= bytes.subrange(8, 12));
    lemma_le4(s.skip(4));
    lemma_le2(bytes.subrange(12, 14));
    lemma_le2(bytes.subrange(14, 16));
}

/// Decode the header of a message.
pub fn parse_header(bytes: &[u8]) -> (r: NstatMsgHdr)
    requires
        bytes@.len() >= HDR_LEN,
    ensures
        r == header(bytes@),
{
    let head: &[u8] = vstd::slice::slice_subrange(bytes, 0, HDR_LEN);
    let (context, word) = read_words(head);
    proof {
        assert(head@.subrange(0, 8) =~= bytes@.subrange(0, 8));
        assert(head@.subrange(8, 16) =~= bytes@.subrange(8, 16));
        lemma_header_word(bytes@);
    }
    NstatMsgHdr {
        context,
        msg_type: (word % 4294967296) as u32,
        length: (word / 4294967296 % 65536) as u16,
        flags: (word / 281474976710656) as u16,
    }
}

/// Whether `buf` starts with a whole message: a header whose length covers at
/// least itself and at most what is there.
pub open spec fn framed(buf: Seq<u8>) -> bool {
    buf.len() >= HDR_LEN && HDR_LEN <= header(buf).length <= buf.len()
}

/// No message, or the one.
pub open spec fn at_most_one(m: Option<MsgView>) -> Seq<MsgView> {
    match m {
        Some(m) => seq![m],
        None => seq![],
    }
}

/// The messages of a datagram: what its first frame holds, then the messages
/// after that frame. A truncated or impossible frame ends it.
pub open spec fn messages(buf: Seq<u8>) -> Seq<MsgView>
    decreases buf.len(),
{
    if !framed(buf) {
        seq![]
    } else {
        let len = header(buf).length as int;
        at_most_one(message(header(buf).msg_type, buf.take(len))) + messages(buf.skip(len))
    }
}

/// Walk a datagram that may pack several `nstat_msg_hdr`-prefixed messages
/// back-to-back (the kernel "aggregates"), decoding each in turn. A truncated
/// or zero-length trailing message stops the walk cleanly.
pub fn parse_datagram(buf: &[u8]) -> (out: Vec<Msg>)
    ensures
        msg_views(out@) == messages(buf@),
{
    let mut out: Vec<Msg> = Vec::new();
    let mut off: usize = 0;
    assert(buf@.skip(0) =~= buf@);
    assert(msg_views(out@) + messages(buf@) =~= messages(buf@));
    while buf.len() - off >= HDR_LEN
        invariant_except_break
            off <= buf@.len(),
            msg_views(out@) + messages(buf@.skip(off as int)) == messages(buf@),
        ensures
            msg_views(out@) == messages(buf@),
        decreases buf@.len() - off,
    {
        let rest: &[u8] = vstd::slice::slice_subrange(buf, off, buf.len());
        assert(rest@ =~= buf@.skip(off as int));
        let hdr: NstatMsgHdr = parse_header(rest);
        let len: usize = hdr.length as usize;
        if len < HDR_LEN || len > rest.len() {
            assert(msg_views(out@) + messages(rest@) =~= msg_views(out@));
            break;
        }
        let ghost before = out@;
        let frame: &[u8] = vstd::slice::slice_subrange(rest, 0, len);
        assert(frame@ =~= rest@.take(len as int));
        assert(buf@.skip(off + len) =~= rest@.skip(len as int));
        match parse_message(hdr.msg_type, frame) {
            Some(m) => {
                out.push(m);
                assert(msg_views(out@) =~= msg_views(before) + seq![m@]);
            },
            None => {},
        }
        assert(msg_views(out@) + messages(buf@.skip(off + len)) =~= messages(buf@));
        off = off + len;
    }
    out
}

// ---- requests --------------------------------------------------------------

/// `nstat_msg_add_all_srcs` — subscribe to every source of one provider.
#[derive(Clone, Copy, Debug, Default)]
pub struct NstatMsgAddAllSrcs {
    pub hdr: NstatMsgHdr,
    pub filter: u64,
    pub events: u64,
    pub provider: u32,
    pub target_pid: i32,
    pub target_uuid: [u8; 16],
}

/// `nstat_msg_query_src` / `nstat_msg_get_src_description` — both are just the
/// header plus a `srcref` (use `NSTAT_SRC_REF_ALL` to mean "all").
#[derive(Clone, Copy, Debug, Default, PartialEq, Eq, Structural)]
pub struct NstatMsgSrcRefReq {
    pub hdr: NstatMsgHdr,
    pub srcref: u64,
}

/// Size of `nstat_msg_add_all_srcs`.
pub const ADD_ALL_SRCS_LEN: u16 = 56;

/// Size of `nstat_msg_query_src` and `nstat_msg_get_src_description`.
pub const SRC_REF_REQ_LEN: u16 = 24;

/// The bytes of a header.
pub open spec fn header_bytes(h: NstatMsgHdr) -> Seq<u8> {
    le_bytes(h.context as nat, 8) + le_bytes(h.msg_type as nat, 4) + le_bytes(h.length as nat, 2)
        + le_bytes(h.flags as nat, 2)
}

/// The two's complement of a 32-bit number.
pub open spec fn twos_complement(v: i32) -> nat {
    if v < 0 {
        (v + 0x1_0000_0000) as nat
    } else {
        v as nat
    }
}

/// `bytemuck::bytes_of` on one 64-bit word: its bytes as they stand in memory.
/// The word is put in little-endian order first, so they are its base-256
/// digits, least significant first.
#[verifier::external_body]
fn word_bytes(v: u64) -> (r: Vec<u8>)
    ensures
        r@ == le_bytes(v as nat, 8),
{
    bytemuck::bytes_of(&v.to_le()).to_vec()
}

/// As many digits as were asked for.
pub proof fn lemma_le_bytes_len(v: nat, n: nat)
    ensures
        le_bytes(v, n).len() == n,
    decreases n,
{
    if n > 0 {
        lemma_le_bytes_len(v / 256, (n - 1) as nat);
    }
}

/// The digits of a number spell it.
pub proof fn lemma_le_of_le_bytes(v: nat, n: nat)
    requires
        v < pow256(n),
    ensures
        le(le_bytes(v, n)) == v,
    decreases n,
{
    if n > 0 {
        lemma_le_of_le_bytes(v / 256, (n - 1) as nat);
        let s = le_bytes(v, n);
        assert(s.drop_first() =~= le_bytes(v / 256, (n - 1) as nat));
    }
}

#[verifier::spinoff_prover]
#[verifier::rlimit(40)]
proof fn lemma_le_bytes_join(a: nat, k: nat, b: nat, m: nat)
    requires
        a < pow256(k),
    ensures
        le_bytes(a + pow256(k) * b, k + m) == le_bytes(a, k) + le_bytes(b, m),
    decreases k,
{
    if k == 0 {
        assert(pow256(0) * b == b) by (nonlinear_arith)
            requires
                pow256(0) == 1,
        ;
        assert(le_bytes(a, 0) + le_bytes(b, m) =~= le_bytes(b, m));
    } else {
        let p = pow256((k - 1) as nat);
        let x = p * b;
        assert(pow256(k) * b == 256 * x) by (nonlinear_arith)
            requires
                pow256(k) == 256 * p,
                x == p * b,
        ;
        lemma_le_bytes_join(a / 256, (k - 1) as nat, b, m);
        let v = (a + 256 * x) as nat;
        assert(v % 256 == a % 256);
        assert(v / 256 == a / 256 + x);
        assert((k + m - 1) as nat == (k - 1) as nat + m);
        assert(le_bytes(v, k + m) =~= le_bytes(a, k) + le_bytes(b, m));
    }
}

fn push_word(out: &mut Vec<u8>, v: u64)
    ensures
        final(out)@ == old(out)@ + le_bytes(v as nat, 8),
{
    let word: Vec<u8> = word_bytes(v);
    out.extend_from_slice(word.as_slice());
}

fn push_pair(out: &mut Vec<u8>, lo: u32, hi: u32)
    ensures
        final(out)@ == old(out)@ + le_bytes(lo as nat, 4) + le_bytes(hi as nat, 4),
{
    let ghost start = out@;
    proof {
        reveal_with_fuel(pow256, 5);
        lemma_le_bytes_join(lo as nat, 4, hi as nat, 4);
    }
    push_word(out, lo as u64 + 4294967296 * (hi as u64));
    assert(out@ =~= start + le_bytes(lo as nat, 4) + le_bytes(hi as nat, 4));
}

impl NstatMsgHdr {
    fn push_to(&self, out: &mut Vec<u8>)
        ensures
            final(out)@ == old(out)@ + header_bytes(*self),
    {
        let ghost start = out@;
        push_word(out, self.context);
        proof {
            reveal_with_fuel(pow256, 3);
            lemma_le_bytes_join(self.length as nat, 2, self.flags as nat, 2);
        }
        push_pair(out, self.msg_type, self.length as u32 + 65536 * (self.flags as u32));
        assert(out@ =~= start + header_bytes(*self));
    }
}

impl NstatMsgAddAllSrcs {
    /// Build a subscribe-to-all request for one provider.
    pub fn new(context: u64, provider: u32) -> (r: Self)
        ensures
            r.hdr == (NstatMsgHdr {
                context,
                msg_type: NSTAT_MSG_TYPE_ADD_ALL_SRCS,
                length: ADD_ALL_SRCS_LEN,
                flags: NSTAT_MSG_HDR_FLAG_SUPPORTS_AGGREGATE,
            }),
            r.filter == NSTAT_FILTER_FLAGS_V1_USAGE,
            r.events == 0,
            r.provider == provider,
            r.target_pid == -1,
            r.target_uuid@ == Seq::new(16, |i: int| 0u8),
    {
        let r = NstatMsgAddAllSrcs {
            hdr: NstatMsgHdr {
                context,
                msg_type: NSTAT_MSG_TYPE_ADD_ALL_SRCS,
                length: ADD_ALL_SRCS_LEN,
                flags: NSTAT_MSG_HDR_FLAG_SUPPORTS_AGGREGATE,
            },
            filter: NSTAT_FILTER_FLAGS_V1_USAGE,
            events: 0,
            provider,
            target_pid: -1,
            target_uuid: [0; 16],
        };
        assert(r.target_uuid@ =~= Seq::new(16, |i: int| 0u8));
        r
    }

    /// The bytes of the request: its fields in order, each little-endian.
    pub open spec fn encoded(self) -> Seq<u8> {
        header_bytes(self.hdr) + le_bytes(self.filter as nat, 8) + le_bytes(self.events as nat, 8)
            + le_bytes(self.provider as nat, 4) + le_bytes(twos_complement(self.target_pid), 4)
            + self.target_uuid@
    }

    /// The request as it goes to the kernel.
    pub fn to_bytes(&self) -> (r: Vec<u8>)
        ensures
            r@ == self.encoded(),
    {
        let mut out: Vec<u8> = Vec::new();
        self.hdr.push_to(&mut out);
        push_word(&mut out, self.filter);
        push_word(&mut out, self.events);
        let pid: u32 = if self.target_pid < 0 {
            (self.target_pid as i64 + 0x1_0000_0000) as u32
        } else {
            self.target_pid as u32
        };
        push_pair(&mut out, self.provider, pid);
        let mut i: usize = 0;
        let ghost fields = out@;
        while i < 16
            invariant
                i <= 16,
                out@ == fields + self.target_uuid@.take(i as int),
            decreases 16 - i,
        {
            out.push(self.target_uuid[i]);
            i += 1;
        }
        assert(self.target_uuid@.take(16) =~= self.target_uuid@);
        assert(out@ =~= self.encoded());
        out
    }
}

impl NstatMsgSrcRefReq {
    /// Build a `QUERY_SRC` or `GET_SRC_DESC` for a srcref (or `NSTAT_SRC_REF_ALL`).
    pub fn new(context: u64, msg_type: u32, srcref: u64) -> (r: Self)
        ensures
            r.hdr == (NstatMsgHdr {
                context,
                msg_type,
                length: SRC_REF_REQ_LEN,
                flags: NSTAT_MSG_HDR_FLAG_SUPPORTS_AGGREGATE,
            }),
            r.srcref == srcref,
    {
        NstatMsgSrcRefReq {
            hdr: NstatMsgHdr {
                context,
                msg_type,
                length: SRC_REF_REQ_LEN,
                flags: NSTAT_MSG_HDR_FLAG_SUPPORTS_AGGREGATE,
            },
            srcref,
        }
    }

    /// The bytes of the request: its fields in order, each little-endian.
    pub open spec fn encoded(self) -> Seq<u8> {
        header_bytes(self.hdr) + le_bytes(self.srcref as nat, 8)
    }

    /// The request as it goes to the kernel.
    pub fn to_bytes(&self) -> (r: Vec<u8>)
        ensures
            r@ == self.encoded(),
    {
        let mut out: Vec<u8> = Vec::new();
        self.hdr.push_to(&mut out);
        push_word(&mut out, self.srcref);
        assert(out@ =~= self.encoded());
        out
    }
}

// ---- laws ------------------------------------------------------------------

/// Whether `buf` is made of whole frames, with nothing left over.
pub open spec fn well_framed(buf: Seq<u8>) -> bool
    decreases buf.len(),
{
    buf.len() == 0 || (framed(buf) && well_framed(buf.skip(header(buf).length as int)))
}

/// Whether every flow that the message surfaces is plausible and has a name
/// free of control characters.
pub open spec fn surfaces_only_trusted(m: MsgView) -> bool {
    match m {
        MsgView::SrcDesc { desc, .. } => plausible(desc) && shows_plainly(desc.pname),
        MsgView::SrcUpdate { desc: Some(desc), .. } => plausible(desc) && shows_plainly(desc.pname),
        _ => true,
    }
}

/// Whether no character of `s` is a control character.
pub open spec fn shows_plainly(s: Seq<char>) -> bool {
    forall|i: int| 0 <= i < s.len() ==> !is_control(#[trigger] s[i])
}

proof fn lemma_header_of_prefix(a: Seq<u8>, b: Seq<u8>)
    requires
        a.len() >= HDR_LEN,
    ensures
        header(a + b) == header(a),
{
    assert((a + b).subrange(0, 8) =~= a.subrange(0, 8));
    assert((a + b).subrange(8, 12) =~= a.subrange(8, 12));
    assert((a + b).subrange(12, 14) =~= a.subrange(12, 14));
    assert((a + b).subrange(14, 16) =~= a.subrange(14, 16));
}

/// The messages of two datagrams packed back-to-back are those of the first and
/// then those of the second.
pub proof fn law_aggregate_datagram(a: Seq<u8>, b: Seq<u8>)
    requires
        well_framed(a),
    ensures
        messages(a + b) == messages(a) + messages(b),
    decreases a.len(),
{
    if a.len() == 0 {
        assert(a + b =~= b);
        assert(messages(a) + messages(b) =~= messages(b));
    } else {
        lemma_header_of_prefix(a, b);
        let len = header(a).length as int;
        law_aggregate_datagram(a.skip(len), b);
        assert((a + b).take(len) =~= a.take(len));
        assert((a + b).skip(len) =~= a.skip(len) + b);
        let first = at_most_one(message(header(a).msg_type, a.take(len)));
        assert(first + (messages(a.skip(len)) + messages(b)) =~= (first + messages(a.skip(len)))
            + messages(b));
    }
}

/// Bytes after the last whole frame that do not make up a frame are ignored.
pub proof fn law_trailing_garbage_is_ignored(a: Seq<u8>, rest: Seq<u8>)
    requires
        well_framed(a),
        !framed(rest),
    ensures
        messages(a + rest) == messages(a),
{
    law_aggregate_datagram(a, rest);
    assert(messages(a) + messages(rest) =~= messages(a));
}

/// A flow is only surfaced if its pid is plausible and one of its endpoints has
/// a known address family, and no name carries a control character.
pub proof fn law_only_trusted_flows_surface(buf: Seq<u8>)
    ensures
        forall|i: int|
            0 <= i < messages(buf).len() ==> surfaces_only_trusted(#[trigger] messages(buf)[i]),
    decreases buf.len(),
{
    if framed(buf) {
        let len = header(buf).length as int;
        law_only_trusted_flows_surface(buf.skip(len));
        let first = at_most_one(message(header(buf).msg_type, buf.take(len)));
        assert forall|i: int| 0 <= i < messages(buf).len() implies surfaces_only_trusted(
            #[trigger] messages(buf)[i],
        ) by {
            if i >= first.len() {
                assert(messages(buf)[i] == messages(buf.skip(len))[i - first.len()]);
            }
        }
    }
}

/// A request's header reads back as it was written, whatever follows it.
pub proof fn law_header_round_trip(h: NstatMsgHdr, rest: Seq<u8>)
    ensures
        header(header_bytes(h) + rest) == h,
{
    let bytes = header_bytes(h) + rest;
    lemma_le_bytes_len(h.context as nat, 8);
    lemma_le_bytes_len(h.msg_type as nat, 4);
    lemma_le_bytes_len(h.length as nat, 2);
    lemma_le_bytes_len(h.flags as nat, 2);
    reveal_with_fuel(pow256, 9);
    lemma_le_of_le_bytes(h.context as nat, 8);
    lemma_le_of_le_bytes(h.msg_type as nat, 4);
    lemma_le_of_le_bytes(h.length as nat, 2);
    lemma_le_of_le_bytes(h.flags as nat, 2);
    assert(bytes.subrange(0, 8) =~= le_bytes(h.context as nat, 8));
    assert(bytes.subrange(8, 12) =~= le_bytes(h.msg_type as nat, 4));
    assert(bytes.subrange(12, 14) =~= le_bytes(h.length as nat, 2));
    assert(bytes.subrange(14, 16) =~= le_bytes(h.flags as nat, 2));
}

/// A subscription goes out as one whole frame: the length in its header is the
/// number of its bytes.
pub proof fn law_add_all_srcs_is_one_frame(req: NstatMsgAddAllSrcs)
    requires
        req.hdr.length == ADD_ALL_SRCS_LEN,
    ensures
        req.encoded().len() == req.hdr.length,
        header(req.encoded()) == req.hdr,
{
    lemma_le_bytes_len(req.hdr.context as nat, 8);
    lemma_le_bytes_len(req.hdr.msg_type as nat, 4);
    lemma_le_bytes_len(req.hdr.length as nat, 2);
    lemma_le_bytes_len(req.hdr.flags as nat, 2);
    lemma_le_bytes_len(req.filter as nat, 8);
    lemma_le_bytes_len(req.events as nat, 8);
    lemma_le_bytes_len(req.provider as nat, 4);
    lemma_le_bytes_len(twos_complement(req.target_pid), 4);
    let rest = le_bytes(req.filter as nat, 8) + le_bytes(req.events as nat, 8) + le_bytes(
        req.provider as nat,
        4,
    ) + le_bytes(twos_complement(req.target_pid), 4) + req.target_uuid@;
    law_header_round_trip(req.hdr, rest);
    assert(req.encoded() =~= header_bytes(req.hdr) + rest);
}

/// A query or describe request goes out as one whole frame, and its srcref
/// reads back.
pub proof fn law_src_ref_req_is_one_frame(req: NstatMsgSrcRefReq)
    requires
        req.hdr.length == SRC_REF_REQ_LEN,
    ensures
        req.encoded().len() == req.hdr.length,
        header(req.encoded()) == req.hdr,
        le_at(req.encoded(), 16, 8) == req.srcref,
{
    lemma_le_bytes_len(req.hdr.context as nat, 8);
    lemma_le_bytes_len(req.hdr.msg_type as nat, 4);
    lemma_le_bytes_len(req.hdr.length as nat, 2);
    lemma_le_bytes_len(req.hdr.flags as nat, 2);
    lemma_le_bytes_len(req.srcref as nat, 8);
    law_header_round_trip(req.hdr, le_bytes(req.srcref as nat, 8));
    reveal_with_fuel(pow256, 9);
    lemma_le_of_le_bytes(req.srcref as nat, 8);
    assert(req.encoded().subrange(16, 24) =~= le_bytes(req.srcref as nat, 8));
}

/// The number in the two bytes from `at` on, least significant first.
pub open spec fn u16_at(b: Seq<u8>, at: int) -> int {
    b[at] + 0x100 * b[at + 1]
}

/// The number in the four bytes from `at` on, least significant first.
pub open spec fn u32_at(b: Seq<u8>, at: int) -> int {
    b[at] + 0x100 * b[at + 1] + 0x1_0000 * b[at + 2] + 0x100_0000 * b[at + 3]
}

/// The number in the eight bytes from `at` on, least significant first.
pub open spec fn u64_at(b: Seq<u8>, at: int) -> int {
    u32_at(b, at) + 0x1_0000_0000 * u32_at(b, at + 4)
}

/// The number in the sixteen bytes from `at` on, most significant first.
pub open spec fn network_u128_at(b: Seq<u8>, at: int) -> int {
    0x1000000000000000000000000000000 * b[at + 0]
        + 0x10000000000000000000000000000 * b[at + 1]
        + 0x100000000000000000000000000 * b[at + 2]
        + 0x1000000000000000000000000 * b[at + 3]
        + 0x10000000000000000000000 * b[at + 4]
        + 0x100000000000000000000 * b[at + 5]
        + 0x1000000000000000000 * b[at + 6]
        + 0x10000000000000000 * b[at + 7]
        + 0x100000000000000 * b[at + 8]
        + 0x1000000000000 * b[at + 9]
        + 0x10000000000 * b[at + 10]
        + 0x100000000 * b[at + 11]
        + 0x1000000 * b[at + 12]
        + 0x10000 * b[at + 13]
        + 0x100 * b[at + 14]
        + b[at + 15]
}

/// The numbers at a place are those that the bytes there spell.
pub proof fn lemma_numbers_at(b: Seq<u8>, at: int)
    requires
        0 <= at,
    ensures
        at + 2 <= b.len() ==> le_at(b, at, 2) == u16_at(b, at) && 0 <= u16_at(b, at) <= 0xffff,
        at + 4 <= b.len() ==> le_at(b, at, 4) == u32_at(b, at) && 0 <= u32_at(b, at) <= 0xffff_ffff,
        at + 8 <= b.len() ==> le_at(b, at, 8) == u64_at(b, at) && 0 <= u64_at(b, at)
            <= 0xffff_ffff_ffff_ffff,
        at + 2 <= b.len() ==> be_at(b, at, 2) == 0x100 * b[at] + b[at + 1],
        at + 4 <= b.len() ==> be_at(b, at, 4) == 0x100_0000 * b[at] + 0x1_0000 * b[at + 1] + 0x100
            * b[at + 2] + b[at + 3],
{
    if at + 2 <= b.len() {
        lemma_le2(b.subrange(at, at + 2));
        lemma_be2(b.subrange(at, at + 2));
    }
    if at + 4 <= b.len() {
        lemma_le4(b.subrange(at, at + 4));
        lemma_be4(b.subrange(at, at + 4));
    }
    if at + 8 <= b.len() {
        let s = b.subrange(at, at + 8);
        lemma_le8(s);
        lemma_le4(s.take(4));
        lemma_le4(s.skip(4));
    }
}

proof fn lemma_be_split(s: Seq<u8>, n: int)
    requires
        0 <= n <= s.len(),
    ensures
        be(s) == be(s.take(n)) * pow256((s.len() - n) as nat) + be(s.skip(n)),
    decreases s.len() - n,
{
    if n == s.len() {
        assert(s.take(n) =~= s);
        assert(be(s) * 1 == be(s)) by (nonlinear_arith);
    } else {
        let t = s.drop_last();
        lemma_be_split(t, n);
        assert(t.take(n) =~= s.take(n));
        assert(s.skip(n).drop_last() =~= t.skip(n));
        let (h, p, l) = (be(s.take(n)), pow256((t.len() - n) as nat), be(t.skip(n)));
        assert(256 * (h * p + l) == h * (256 * p) + 256 * l) by (nonlinear_arith);
    }
}

proof fn lemma_network_u128(b: Seq<u8>, at: int)
    requires
        0 <= at,
        at + 16 <= b.len(),
    ensures
        be_at(b, at, 16) == network_u128_at(b, at),
{
    let s = b.subrange(at, at + 16);
    lemma_be_split(s, 4);
    let t = s.skip(4);
    lemma_be_split(t, 4);
    let u = t.skip(4);
    lemma_be_split(u, 4);
    lemma_be4(s.take(4));
    lemma_be4(t.take(4));
    lemma_be4(u.take(4));
    lemma_be4(u.skip(4));
    reveal_with_fuel(pow256, 13);
    let (p, q, r) = (pow256(12), pow256(8), pow256(4));
    let (w, x, y) = (be(s.take(4)), be(t.take(4)), be(u.take(4)));
    assert(w * p == 0x1_0000_0000_0000_0000_0000_0000 * w) by (nonlinear_arith)
        requires
            p == 0x1_0000_0000_0000_0000_0000_0000,
    ;
    assert(x * q == 0x1_0000_0000_0000_0000 * x) by (nonlinear_arith)
        requires
            q == 0x1_0000_0000_0000_0000,
    ;
    assert(y * r == 0x1_0000_0000 * y) by (nonlinear_arith)
        requires
            r == 0x1_0000_0000,
    ;
}

/// A header's fields stand one after the other: context, type, length and flags,
/// in 8, 4, 2 and 2 bytes.
pub proof fn law_header_fields(b: Seq<u8>)
    requires
        b.len() >= 16,
    ensures
        header(b).context == u64_at(b, 0),
        header(b).msg_type == u32_at(b, 8),
        header(b).length == u16_at(b, 12),
        header(b).flags == u16_at(b, 14),
{
    lemma_numbers_at(b, 0);
    lemma_numbers_at(b, 8);
    lemma_numbers_at(b, 12);
    lemma_numbers_at(b, 14);
}

/// A socket address of the v4 family gives the four octets at its fourth byte and
/// the port at its second, in network order, unless all of them are zero.
pub proof fn law_v4_endpoint(b: Seq<u8>, off: int)
    requires
        0 <= off,
        off + 28 <= b.len(),
        b[off + 1] == 2,
    ensures
        ({
            let port = 0x100 * b[off + 2] + b[off + 3];
            let ip = 0x100_0000 * b[off + 4] + 0x1_0000 * b[off + 5] + 0x100 * b[off + 6] + b[off
                + 7];
            match endpoint_at(b, off) {
                Some(e) => e.port == port && e.ip == IpAddr::V4(ip as u32) && (ip != 0 || port != 0),
                None => ip == 0 && port == 0,
            }
        }),
{
    lemma_numbers_at(b, off + 2);
    lemma_numbers_at(b, off + 4);
}

/// A socket address of the v6 family gives the sixteen octets at its eighth byte
/// and the port at its second, in network order, unless all of them are zero.
pub proof fn law_v6_endpoint(b: Seq<u8>, off: int)
    requires
        0 <= off,
        off + 28 <= b.len(),
        b[off + 1] == 30,
    ensures
        ({
            let port = 0x100 * b[off + 2] + b[off + 3];
            let ip = network_u128_at(b, off + 8);
            match endpoint_at(b, off) {
                Some(e) => e.port == port && e.ip == IpAddr::V6(ip as u128) && (ip != 0 || port
                    != 0),
                None => ip == 0 && port == 0,
            }
        }),
{
    lemma_numbers_at(b, off + 2);
    lemma_network_u128(b, off + 8);
}

/// A socket address of any other family, or one that runs past the end, is no
/// endpoint.
pub proof fn law_no_endpoint(b: Seq<u8>, off: int)
    requires
        0 <= off,
        off + 28 > b.len() || (b[off + 1] != 2 && b[off + 1] != 30),
    ensures
        endpoint_at(b, off) is None,
{
}

/// A process name is the text of the first bytes of its 64, up to a zero byte,
/// with a replacement character for each control character.
pub proof fn law_names_end_at_the_first_zero(b: Seq<u8>, off: int, n: int)
    requires
        0 <= off,
        0 <= n <= 64,
        off + n <= b.len(),
        forall|i: int| off <= i < off + n ==> b[i] != 0,
        n == 64 || off + n == b.len() || b[off + n] == 0,
    ensures
        ({
            let text = lossy_text(b.subrange(off, off + n));
            let name = name_at(b, off);
            &&& name.len() == text.len()
            &&& forall|i: int|
                0 <= i < name.len() ==> #[trigger] name[i] == {
                    let x = text[i] as u32;
                    if x < 0x20 || x == 0x7f || (0x80 <= x < 0xa0) {
                        '\u{fffd}'
                    } else {
                        text[i]
                    }
                }
        }),
{
    let field = name_field(b, off);
    lemma_until_nul(field, n);
    assert(field.take(n) =~= b.subrange(off, off + n));
}

/// A descriptor of either TCP provider, in the kernel or in userland, is read by
/// the TCP layout: it needs 260 bytes, a pid in range and an endpoint, and then
/// gives the fields at that layout's places.
pub proof fn law_tcp_descriptors(provider: u32, data: Seq<u8>)
    requires
        provider == 2 || provider == 3,
    ensures
        data.len() < 260 ==> descriptor(provider, data) is None,
        data.len() >= 260 ==> {
            let (pid, local, remote) = (
                u32_at(data, 116),
                endpoint_at(data, 124),
                endpoint_at(data, 152),
            );
            match descriptor(provider, data) {
                Some(d) => {
                    &&& 0 < pid < 0x40_0000
                    &&& local is Some || remote is Some
                    &&& d.pid == pid && d.local == local && d.remote == remote
                    &&& d.tcp_state == u32_at(data, 76)
                    &&& d.pname == name_at(data, 196)
                },
                None => pid == 0 || pid >= 0x40_0000 || (local is None && remote is None),
            }
        },
{
    lemma_numbers_at(data, 116);
    lemma_numbers_at(data, 76);
}

/// A descriptor of either UDP provider, in the kernel or in userland, is read by
/// the UDP layout: it needs 196 bytes, a pid in range and an endpoint, and then
/// gives the fields at that layout's places. It has no TCP state.
pub proof fn law_udp_descriptors(provider: u32, data: Seq<u8>)
    requires
        provider == 4 || provider == 5,
    ensures
        data.len() < 196 ==> descriptor(provider, data) is None,
        data.len() >= 196 ==> {
            let (pid, local, remote) = (
                u32_at(data, 128),
                endpoint_at(data, 56),
                endpoint_at(data, 84),
            );
            match descriptor(provider, data) {
                Some(d) => {
                    &&& 0 < pid < 0x40_0000
                    &&& local is Some || remote is Some
                    &&& d.pid == pid && d.local == local && d.remote == remote
                    &&& d.tcp_state == 0
                    &&& d.pname == name_at(data, 132)
                },
                None => pid == 0 || pid >= 0x40_0000 || (local is None && remote is None),
            }
        },
{
    lemma_numbers_at(data, 128);
}

/// A descriptor of any other provider is not read at all.
pub proof fn law_foreign_descriptors(provider: u32, data: Seq<u8>)
    requires
        provider < 2 || provider > 5,
    ensures
        descriptor(provider, data) is None,
        !tcp_provider(provider) && !udp_provider(provider),
{
}

/// The providers tell TCP and UDP flows apart, in the kernel and in userland.
pub proof fn law_providers(provider: u32)
    ensures
        tcp_provider(provider) <==> provider == 2 || provider == 3,
        udp_provider(provider) <==> provider == 4 || provider == 5,
{
}

/// A description message surfaces just the flow that its descriptor gives, under
/// its own srcref and provider.
pub proof fn law_description_message(msg: Seq<u8>)
    ensures
        msg.len() < 40 ==> message(10003, msg) is None,
        msg.len() >= 40 ==> {
            let provider = u32_at(msg, 32) as u32;
            let desc = descriptor(provider, msg.subrange(40, msg.len() as int));
            &&& desc is None ==> message(10003, msg) is None
            &&& desc is Some ==> message(10003, msg) == Some(
                MsgView::SrcDesc { srcref: u64_at(msg, 16) as u64, provider, desc: desc->0 },
            )
        },
{
    if msg.len() >= 40 {
        lemma_numbers_at(msg, 16);
        lemma_numbers_at(msg, 32);
        assert(msg.skip(40) =~= msg.subrange(40, msg.len() as int));
    }
}

/// An update message gives its counters, and its flow's descriptor if it has one
/// to be trusted.
pub proof fn law_update_message(msg: Seq<u8>)
    ensures
        msg.len() < 148 ==> message(10006, msg) is None,
        msg.len() >= 148 ==> {
            let provider = u32_at(msg, 144) as u32;
            message(10006, msg) == Some(
                MsgView::SrcUpdate {
                    srcref: u64_at(msg, 16) as u64,
                    provider,
                    counts: Counts {
                        rx_bytes: u64_at(msg, 40) as u64,
                        tx_bytes: u64_at(msg, 56) as u64,
                    },
                    desc: if msg.len() < 152 {
                        None
                    } else {
                        descriptor(provider, msg.subrange(152, msg.len() as int))
                    },
                },
            )
        },
{
    if msg.len() >= 148 {
        lemma_numbers_at(msg, 16);
        lemma_numbers_at(msg, 40);
        lemma_numbers_at(msg, 56);
        lemma_numbers_at(msg, 144);
    }
    if msg.len() >= 152 {
        assert(msg.skip(152) =~= msg.subrange(152, msg.len() as int));
    }
}

/// The other messages give the fields at their places, and none if they are too
/// short for them: a source that came or went, fresh counters, an error with its
/// code, and anything else by its type alone.
pub proof fn law_plain_messages(msg_type: u32, msg: Seq<u8>)
    ensures
        message(0, msg) == Some(MsgView::Success),
        msg.len() >= 20 ==> message(1, msg) == Some(
            MsgView::Error { code: u32_at(msg, 16) as u32 },
        ),
        msg.len() < 20 ==> message(1, msg) == Some(MsgView::Error { code: 0 }),
        msg.len() >= 28 ==> message(10001, msg) == Some(
            MsgView::SrcAdded {
                srcref: u64_at(msg, 16) as u64,
                provider: u32_at(msg, 24) as u32,
            },
        ),
        msg.len() < 28 ==> message(10001, msg) is None,
        msg.len() >= 24 ==> message(10002, msg) == Some(
            MsgView::SrcRemoved { srcref: u64_at(msg, 16) as u64 },
        ),
        msg.len() < 24 ==> message(10002, msg) is None,
        msg.len() >= 64 ==> message(10004, msg) == Some(
            MsgView::SrcCounts {
                srcref: u64_at(msg, 16) as u64,
                counts: Counts {
                    rx_bytes: u64_at(msg, 40) as u64,
                    tx_bytes: u64_at(msg, 56) as u64,
                },
            },
        ),
        msg.len() < 64 ==> message(10004, msg) is None,
        msg_type != 0 && msg_type != 1 && !(10001 <= msg_type <= 10004) && msg_type != 10006
            ==> message(msg_type, msg) == Some(MsgView::Other { msg_type }),
{
    lemma_numbers_at(msg, 16);
    lemma_numbers_at(msg, 24);
    lemma_numbers_at(msg, 40);
    lemma_numbers_at(msg, 56);
}

/// A datagram is read frame by frame: the first frame is as long as its header
/// says, what it holds comes first, and the rest is read likewise. A frame whose
/// length is less than a header's or more than what is there ends the datagram.
pub proof fn law_datagram_is_read_by_frames(b: Seq<u8>)
    ensures
        ({
            let len = u16_at(b, 12);
            let first = message(u32_at(b, 8) as u32, b.subrange(0, len));
            let rest = messages(b.subrange(len, b.len() as int));
            if b.len() < 16 || len < 16 || len > b.len() {
                messages(b).len() == 0
            } else if first is Some {
                messages(b) == seq![first->0] + rest
            } else {
                messages(b) == rest
            }
        }),
{
    if b.len() >= 16 {
        law_header_fields(b);
        let len = u16_at(b, 12);
        if 16 <= len <= b.len() {
            assert(b.take(len) =~= b.subrange(0, len));
            assert(b.skip(len) =~= b.subrange(len, b.len() as int));
            assert(seq![] + messages(b.skip(len)) =~= messages(b.skip(len)));
        }
    }
}

/// What a descriptor says in ghost code is what it holds.
pub proof fn law_descriptor_view_is_faithful(d: FlowDesc)
    ensures
        d@.pid == d.pid,
        d@.pname == d.pname@,
        d@.local == d.local,
        d@.remote == d.remote,
        d@.tcp_state == d.tcp_state,
{
}

/// The numbers of the protocol are those of the kernel's headers.
pub proof fn law_protocol_numbers()
    ensures
        NSTAT_PROVIDER_TCP_KERNEL == 2 && NSTAT_PROVIDER_TCP_USERLAND == 3,
        NSTAT_PROVIDER_UDP_KERNEL == 4 && NSTAT_PROVIDER_UDP_USERLAND == 5,
        NSTAT_MSG_TYPE_SUCCESS == 0 && NSTAT_MSG_TYPE_ERROR == 1,
        NSTAT_MSG_TYPE_ADD_ALL_SRCS == 1002 && NSTAT_MSG_TYPE_QUERY_SRC == 1004,
        NSTAT_MSG_TYPE_GET_SRC_DESC == 1005 && NSTAT_MSG_TYPE_SRC_ADDED == 10001,
        NSTAT_MSG_TYPE_SRC_REMOVED == 10002 && NSTAT_MSG_TYPE_SRC_DESC == 10003,
        NSTAT_MSG_TYPE_SRC_COUNTS == 10004 && NSTAT_MSG_TYPE_SRC_UPDATE == 10006,
        NSTAT_SRC_REF_ALL == u64::MAX && NSTAT_MSG_HDR_FLAG_SUPPORTS_AGGREGATE == 1,
        NSTAT_FILTER_FLAGS_V1_USAGE == 0x1f7f && AF_INET == 2 && AF_INET6 == 30,
        ADD_ALL_SRCS_LEN == 56 && SRC_REF_REQ_LEN == 24 && HDR_LEN == 16,
{
}

proof fn lemma_header_len(h: NstatMsgHdr)
    ensures
        header_bytes(h).len() == 16,
{
    lemma_le_bytes_len(h.context as nat, 8);
    lemma_le_bytes_len(h.msg_type as nat, 4);
    lemma_le_bytes_len(h.length as nat, 2);
    lemma_le_bytes_len(h.flags as nat, 2);
}

/// The bytes of a header stand in the order context, type, length, flags.
pub proof fn law_header_is_written_in_order(h: NstatMsgHdr, rest: Seq<u8>)
    ensures
        header_bytes(h).len() == 16,
        ({
            let b = header_bytes(h) + rest;
            &&& u64_at(b, 0) == h.context
            &&& u32_at(b, 8) == h.msg_type
            &&& u16_at(b, 12) == h.length
            &&& u16_at(b, 14) == h.flags
        }),
{
    lemma_header_len(h);
    law_header_round_trip(h, rest);
    law_header_fields(header_bytes(h) + rest);
}

/// Text in a fixed field ends before its first zero byte, or fills the field.
pub proof fn law_text_ends_at_the_first_zero(s: Seq<u8>, n: int)
    requires
        0 <= n <= s.len(),
        forall|i: int| 0 <= i < n ==> s[i] != 0,
        n == s.len() || s[n] == 0,
    ensures
        until_nul(s) == s.subrange(0, n),
{
    lemma_until_nul(s, n);
    assert(s.take(n) =~= s.subrange(0, n));
}

/// A subscription's fields stand after its header: filter, events, provider, the
/// process in two's complement, and the uuid.
pub proof fn law_subscription_fields(req: NstatMsgAddAllSrcs)
    ensures
        ({
            let b = req.encoded();
            &&& b.len() == 56
            &&& u64_at(b, 0) == req.hdr.context
            &&& u32_at(b, 8) == req.hdr.msg_type
            &&& u16_at(b, 12) == req.hdr.length
            &&& u16_at(b, 14) == req.hdr.flags
            &&& u64_at(b, 16) == req.filter
            &&& u64_at(b, 24) == req.events
            &&& u32_at(b, 32) == req.provider
            &&& req.target_pid >= 0 ==> u32_at(b, 36) == req.target_pid
            &&& req.target_pid < 0 ==> u32_at(b, 36) == req.target_pid + 0x1_0000_0000
            &&& forall|i: int| 0 <= i < 16 ==> b[40 + i] == #[trigger] req.target_uuid@[i]
        }),
{
    let b = req.encoded();
    let pid = twos_complement(req.target_pid);
    lemma_le_bytes_len(req.filter as nat, 8);
    lemma_le_bytes_len(req.events as nat, 8);
    lemma_le_bytes_len(req.provider as nat, 4);
    lemma_le_bytes_len(pid, 4);
    let rest = le_bytes(req.filter as nat, 8) + le_bytes(req.events as nat, 8) + le_bytes(
        req.provider as nat,
        4,
    ) + le_bytes(pid, 4) + req.target_uuid@;
    law_header_is_written_in_order(req.hdr, rest);
    assert(b =~= header_bytes(req.hdr) + rest);
    reveal_with_fuel(pow256, 9);
    lemma_le_of_le_bytes(req.filter as nat, 8);
    lemma_le_of_le_bytes(req.events as nat, 8);
    lemma_le_of_le_bytes(req.provider as nat, 4);
    lemma_le_of_le_bytes(pid, 4);
    assert(b.subrange(16, 24) =~= le_bytes(req.filter as nat, 8));
    assert(b.subrange(24, 32) =~= le_bytes(req.events as nat, 8));
    assert(b.subrange(32, 36) =~= le_bytes(req.provider as nat, 4));
    assert(b.subrange(36, 40) =~= le_bytes(pid, 4));
    lemma_numbers_at(b, 16);
    lemma_numbers_at(b, 24);
    lemma_numbers_at(b, 32);
    lemma_numbers_at(b, 36);
}

/// Messages keep their number, order and contents in ghost code.
pub proof fn law_messages_are_faithful(msgs: Seq<Msg>, i: int, desc: FlowDesc)
    ensures
        msg_views(msgs).len() == msgs.len(),
        0 <= i < msgs.len() ==> msg_views(msgs)[i] == msgs[i]@,
        desc_view(Some(desc)) == Some(desc@),
        desc_view(None) is None,
        0 <= i < msgs.len() ==> msg_view(Some(msgs[i])) == Some(msgs[i]@),
        msg_view(None) is None,
        0 <= i < msgs.len() ==> match msgs[i] {
            Msg::SrcAdded { srcref, provider } => msgs[i]@ == MsgView::SrcAdded { srcref, provider },
            Msg::SrcRemoved { srcref } => msgs[i]@ == MsgView::SrcRemoved { srcref },
            Msg::SrcDesc { srcref, provider, desc } => msgs[i]@ == MsgView::SrcDesc {
                srcref,
                provider,
                desc: desc@,
            },
            Msg::SrcCounts { srcref, counts } => msgs[i]@ == MsgView::SrcCounts { srcref, counts },
            Msg::SrcUpdate { srcref, provider, counts, desc: Some(desc) } => msgs[i]@
                == MsgView::SrcUpdate { srcref, provider, counts, desc: Some(desc@) },
            Msg::SrcUpdate { srcref, provider, counts, desc: None } => msgs[i]@
                == MsgView::SrcUpdate { srcref, provider, counts, desc: None },
            Msg::Success => msgs[i]@ == MsgView::Success,
            Msg::Error { code } => msgs[i]@ == MsgView::Error { code },
            Msg::Other { msg_type } => msgs[i]@ == MsgView::Other { msg_type },
        },
{
}

} // verus!
