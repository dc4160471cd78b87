//! Cached reverse DNS.
//!
//! The UI asks for a hostname with [`Resolver::lookup`], which answers at once
//! from the cache and says whether a lookup is to be scheduled. Results
//! (including "no name") are cached so a host is only ever looked up once, and
//! the render loop never stalls on DNS.

use std::collections::{HashMap, HashSet};

use vstd::prelude::*;

use crate::ntstat::wire::{self, IpAddr, AF_INET, AF_INET6};
use crate::text;

verus! {

broadcast use vstd::std_specs::hash::group_hash_axioms;

pub struct Resolver {
    cache4: HashMap<u32, Option<String>>,
    cache6: HashMap<u128, Option<String>>,
    inflight4: HashSet<u32>,
    inflight6: HashSet<u128>,
}

/// The state of a [`Resolver`]: what each address resolved to (`None` for no
/// name), and the addresses whose lookup is under way.
pub ghost struct ResolverView {
    pub cache: Map<IpAddr, Option<Seq<char>>>,
    pub inflight: Set<IpAddr>,
}

impl View for Resolver {
    type V = ResolverView;

    closed spec fn view(&self) -> ResolverView {
        ResolverView {
            cache: Map::new(
                |ip: IpAddr|
                    match ip {
                        IpAddr::V4(a) => self.cache4@.contains_key(a),
                        IpAddr::V6(a) => self.cache6@.contains_key(a),
                    },
                |ip: IpAddr|
                    match ip {
                        IpAddr::V4(a) => text::maybe(self.cache4@[a]),
                        IpAddr::V6(a) => text::maybe(self.cache6@[a]),
                    },
            ),
            inflight: Set::new(
                |ip: IpAddr|
                    match ip {
                        IpAddr::V4(a) => self.inflight4@.contains(a),
                        IpAddr::V6(a) => self.inflight6@.contains(a),
                    },
            ),
        }
    }
}

impl ResolverView {
    /// A resolver that has been asked nothing.
    pub open spec fn fresh() -> ResolverView {
        ResolverView { cache: Map::empty(), inflight: Set::empty() }
    }

    /// Whether the address has been looked up, or is being so.
    pub open spec fn known(self, ip: IpAddr) -> bool {
        self.cache.contains_key(ip) || self.inflight.contains(ip)
    }

    /// The hostname the cache holds for the address.
    pub open spec fn cached(self, ip: IpAddr) -> Option<Seq<char>> {
        if self.cache.contains_key(ip) {
            self.cache[ip]
        } else {
            None
        }
    }

    /// The state once the address has been asked for.
    pub open spec fn asked(self, ip: IpAddr) -> ResolverView {
        if self.cache.contains_key(ip) {
            self
        } else {
            ResolverView { inflight: self.inflight.insert(ip), ..self }
        }
    }

    /// The state once the lookup of the address came to an end.
    pub open spec fn resolved(self, ip: IpAddr, name: Option<Seq<char>>) -> ResolverView {
        ResolverView { cache: self.cache.insert(ip, name), inflight: self.inflight.remove(ip) }
    }
}

fn same_name(name: &Option<String>) -> (r: Option<String>)
    ensures
        text::maybe(r) == text::maybe(*name),
{
    match name {
        Some(s) => Some(s.clone()),
        None => None,
    }
}

impl Resolver {
    pub fn new() -> (r: Self)
        ensures
            r@ == ResolverView::fresh(),
    {
        let r = Resolver {
            cache4: HashMap::new(),
            cache6: HashMap::new(),
            inflight4: HashSet::new(),
            inflight6: HashSet::new(),
        };
        assert(r@.cache =~= Map::empty());
        assert(r@.inflight =~= Set::empty());
        r
    }

    fn entry(&self, ip: IpAddr) -> (r: Option<Option<String>>)
        ensures
            match r {
                Some(name) => self@.cache.contains_key(ip) && text::maybe(name) == self@.cache[ip],
                None => !self@.cache.contains_key(ip),
            },
    {
        let found: Option<&Option<String>> = match ip {
            IpAddr::V4(a) => self.cache4.get(&a),
            IpAddr::V6(a) => self.cache6.get(&a),
        };
        match found {
            Some(name) => Some(same_name(name)),
            None => None,
        }
    }

    /// Cached hostname for `ip`, and whether its lookup is to be scheduled now.
    /// `Some(name)` once resolved; `None` while pending *or* when the host has no
    /// PTR record (the UI falls back to the IP either way). The first call for an
    /// address schedules the lookup.
    pub fn lookup(&mut self, ip: IpAddr) -> (r: (Option<String>, bool))
        ensures
            text::maybe(r.0) == old(self)@.cached(ip),
            r.1 == !old(self)@.known(ip),
            final(self)@ == old(self)@.asked(ip),
    {
        if let Some(name) = self.entry(ip) {
            return (name, false);
        }
        let schedule: bool = match ip {
            IpAddr::V4(a) => self.inflight4.insert(a),
            IpAddr::V6(a) => self.inflight6.insert(a),
        };
        assert(self@.cache =~= old(self)@.cache);
        assert(self@.inflight =~= old(self)@.inflight.insert(ip));
        (None, schedule)
    }

    /// The lookup of `ip` came to an end, with or without a name.
    pub fn complete(&mut self, ip: IpAddr, name: Option<String>)
        ensures
            final(self)@ == old(self)@.resolved(ip, text::maybe(name)),
    {
        let ghost found = text::maybe(name);
        match ip {
            IpAddr::V4(a) => {
                self.cache4.insert(a, name);
                self.inflight4.remove(&a);
            },
            IpAddr::V6(a) => {
                self.cache6.insert(a, name);
                self.inflight6.remove(&a);
            },
        }
        assert(self@.cache =~= old(self)@.cache.insert(ip, found));
        assert(self@.inflight =~= old(self)@.inflight.remove(ip));
    }
}

impl Default for Resolver {
    fn default() -> (r: Self)
        ensures
            r@ == ResolverView::fresh(),
    {
        Self::new()
    }
}

// ---- talking to getnameinfo ------------------------------------------------

/// Size of a `sockaddr_storage`.
pub const STORAGE_LEN: usize = 128;

/// Size of a `sockaddr_in`.
pub const SIN_LEN: usize = 16;

/// Size of a `sockaddr_in6`.
pub const SIN6_LEN: usize = 28;

/// The `n` low base-256 digits of `v`, most significant first.
pub open spec fn be_bytes(v: nat, n: nat) -> Seq<u8>
    decreases n,
{
    if n == 0 {
        seq![]
    } else {
        be_bytes(v / 256, (n - 1) as nat).push((v % 256) as u8)
    }
}

/// `n` zero bytes.
pub open spec fn zeros(n: nat) -> Seq<u8> {
    Seq::new(n, |i: int| 0u8)
}

/// The socket address of `ip` with port 0: length, family, port, and the address
/// in network order (for v6 after the flow info and before the scope).
pub open spec fn sockaddr(ip: IpAddr) -> Seq<u8> {
    match ip {
        IpAddr::V4(a) => seq![16u8, AF_INET, 0u8, 0u8] + be_bytes(a as nat, 4) + zeros(8),
        IpAddr::V6(a) => seq![28u8, AF_INET6, 0u8, 0u8, 0u8, 0u8, 0u8, 0u8] + be_bytes(
            a as nat,
            16,
        ) + zeros(4),
    }
}

proof fn lemma_be_bytes_len(v: nat, n: nat)
    ensures
        be_bytes(v, n).len() == n,
    decreases n,
{
    if n > 0 {
        lemma_be_bytes_len(v / 256, (n - 1) as nat);
    }
}

proof fn lemma_be_of_be_bytes(v: nat, n: nat)
    requires
        v < wire::pow256(n),
    ensures
        wire::be(be_bytes(v, n)) == v,
    decreases n,
{
    if n > 0 {
        lemma_be_of_be_bytes(v / 256, (n - 1) as nat);
        let s = be_bytes(v, n);
        assert(s.drop_last() =~= be_bytes(v / 256, (n - 1) as nat));
    }
}

fn push_be(out: &mut Vec<u8>, v: u128, n: usize)
    ensures
        final(out)@ == old(out)@ + be_bytes(v as nat, n as nat),
    decreases n,
{
    let ghost start = out@;
    if n > 0 {
        push_be(out, v / 256, n - 1);
        out.push((v % 256) as u8);
    }
    assert(out@ =~= start + be_bytes(v as nat, n as nat));
}

fn push_zeros(out: &mut Vec<u8>, n: usize)
    ensures
        final(out)@ == old(out)@ + zeros(n as nat),
{
    let ghost start = out@;
    let mut i: usize = 0;
    assert(out@ =~= start + zeros(0));
    while i < n
        invariant
            i <= n,
            out@ == start + zeros(i as nat),
        decreases n - i,
    {
        out.push(0);
        i += 1;
        assert(out@ =~= start + zeros(i as nat));
    }
}

/// Marshal an address into the bytes of a C `sockaddr_storage`, and the length
/// of the socket address in it.
pub fn socketaddr_to_c(ip: IpAddr) -> (r: (Vec<u8>, usize))
    ensures
        r.1 == sockaddr(ip).len(),
        r.0@ == sockaddr(ip) + zeros((STORAGE_LEN - sockaddr(ip).len()) as nat),
        r.0@.len() == STORAGE_LEN,
{
    let mut out: Vec<u8> = Vec::new();
    match ip {
        IpAddr::V4(a) => {
            proof {
                lemma_be_bytes_len(a as nat, 4);
            }
            out.push(16);
            out.push(AF_INET);
            push_zeros(&mut out, 2);
            push_be(&mut out, a as u128, 4);
            push_zeros(&mut out, 8);
            assert(out@ =~= sockaddr(ip));
            push_zeros(&mut out, STORAGE_LEN - SIN_LEN);
            (out, SIN_LEN)
        },
        IpAddr::V6(a) => {
            proof {
                lemma_be_bytes_len(a as nat, 16);
            }
            out.push(28);
            out.push(AF_INET6);
            push_zeros(&mut out, 6);
            push_be(&mut out, a, 16);
            push_zeros(&mut out, 4);
            assert(out@ =~= sockaddr(ip));
            push_zeros(&mut out, STORAGE_LEN - SIN6_LEN);
            (out, SIN6_LEN)
        },
    }
}

/// What a PTR lookup found: `rc` is what `getnameinfo` returned and `host` its
/// host buffer. A failure, or a name that is empty, is no name.
pub fn host_name(rc: i32, host: &[u8]) -> (r: Option<String>)
    ensures
        text::maybe(r) == if rc != 0 || wire::lossy_text(wire::until_nul(host@)).len() == 0 {
            None
        } else {
            Some(wire::lossy_text(wire::until_nul(host@)))
        },
        vstd::utf8::valid_utf8(wire::until_nul(host@)) ==> text::maybe(r) == if rc != 0
            || vstd::utf8::decode_utf8(wire::until_nul(host@)).len() == 0 {
            None
        } else {
            Some(vstd::utf8::decode_utf8(wire::until_nul(host@)))
        },
{
    if rc != 0 {
        return None;
    }
    let s: String = wire::utf8_lossy(wire::before_nul(host));
    if s.as_str().is_empty() {
        None
    } else {
        Some(s)
    }
}

// ---- laws ------------------------------------------------------------------

/// A host is only ever looked up once: the first question schedules it, and from
/// then on, whatever is asked or comes back, no question does.
pub proof fn law_looked_up_once(
    v: ResolverView,
    ip: IpAddr,
    other: IpAddr,
    name: Option<Seq<char>>,
)
    ensures
        v.asked(ip).known(ip),
        v.known(ip) ==> v.asked(other).known(ip),
        v.known(ip) ==> v.resolved(other, name).known(ip),
{
}

/// What a lookup found is what every later question gets.
pub proof fn law_answers_are_cached(v: ResolverView, ip: IpAddr, name: Option<Seq<char>>)
    ensures
        v.resolved(ip, name).cached(ip) == name,
        v.resolved(ip, name).asked(ip) == v.resolved(ip, name),
{
}

/// The socket address of an address reads back as that address, with port 0,
/// unless it is the unspecified one.
pub proof fn law_sockaddr_round_trip(ip: IpAddr)
    ensures
        wire::endpoint_at(sockaddr(ip) + zeros((STORAGE_LEN - sockaddr(ip).len()) as nat), 0)
            == match ip {
            IpAddr::V4(0) | IpAddr::V6(0) => None,
            _ => Some(wire::Endpoint { ip, port: 0 }),
        },
{
    let bytes = sockaddr(ip) + zeros((STORAGE_LEN - sockaddr(ip).len()) as nat);
    reveal_with_fuel(wire::be, 3);
    reveal_with_fuel(wire::pow256, 17);
    match ip {
        IpAddr::V4(a) => {
            lemma_be_bytes_len(a as nat, 4);
            lemma_be_of_be_bytes(a as nat, 4);
            assert(bytes.subrange(4, 8) =~= be_bytes(a as nat, 4));
        },
        IpAddr::V6(a) => {
            lemma_be_bytes_len(a as nat, 16);
            lemma_be_of_be_bytes(a as nat, 16);
            assert(bytes.subrange(8, 24) =~= be_bytes(a as nat, 16));
        },
    }
    assert(wire::be(bytes.subrange(2, 4)) == 0) by {
        assert(bytes.subrange(2, 4) =~= seq![0u8, 0u8]);
        let s = bytes.subrange(2, 4);
        assert(s.drop_last().drop_last() =~= seq![]);
    }
}

/// A question about a new address schedules its lookup and has no answer yet; one
/// about an address on its way or answered does not schedule it again. Questions
/// change no answer and no other address.
pub proof fn law_questions(v: ResolverView, ip: IpAddr, other: IpAddr)
    ensures
        v.known(ip) <==> v.cache.contains_key(ip) || v.inflight.contains(ip),
        v.cache.contains_key(ip) ==> v.cached(ip) == v.cache[ip] && v.asked(ip) == v,
        !v.cache.contains_key(ip) ==> v.cached(ip) is None && v.asked(ip).inflight.contains(ip),
        v.asked(ip).cache == v.cache,
        other != ip ==> v.asked(ip).inflight.contains(other) == v.inflight.contains(other),
{
}

/// An answer is kept, a missing name too, ends its own lookup, and touches no
/// other address.
pub proof fn law_answers(v: ResolverView, ip: IpAddr, name: Option<Seq<char>>, other: IpAddr)
    requires
        other != ip,
    ensures
        ({
            let after = v.resolved(ip, name);
            &&& after.cache.contains_key(ip) && after.cache[ip] == name
            &&& !after.inflight.contains(ip)
            &&& after.cache.contains_key(other) == v.cache.contains_key(other)
            &&& v.cache.contains_key(other) ==> after.cache[other] == v.cache[other]
            &&& after.inflight.contains(other) == v.inflight.contains(other)
        }),
        ResolverView::fresh().cache.dom() == Set::<IpAddr>::empty(),
        ResolverView::fresh().inflight == Set::<IpAddr>::empty(),
{
}

/// A socket address starts with its own length and family, and asks for no port.
pub proof fn law_sockaddr_starts_with_its_length(ip: IpAddr)
    ensures
        ip is V4 ==> sockaddr(ip).len() == 16 && sockaddr(ip)[0] == 16 && sockaddr(ip)[1] == 2,
        ip is V6 ==> sockaddr(ip).len() == 28 && sockaddr(ip)[0] == 28 && sockaddr(ip)[1] == 30,
        sockaddr(ip)[2] == 0 && sockaddr(ip)[3] == 0,
        ip is V4 ==> forall|i: int| 8 <= i < 16 ==> #[trigger] sockaddr(ip)[i] == 0,
        ip is V6 ==> forall|i: int|
            4 <= i < 8 || 24 <= i < 28 ==> #[trigger] sockaddr(ip)[i] == 0,
        STORAGE_LEN == 128,
{
    match ip {
        IpAddr::V4(a) => lemma_be_bytes_len(a as nat, 4),
        IpAddr::V6(a) => lemma_be_bytes_len(a as nat, 16),
    }
}

} // verus!
