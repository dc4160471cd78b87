//! Port → service-name resolution.
//!
//! A small curated table of the ports seen on a personal machine, overlaid
//! (best-effort) with the system `/etc/services` so the long tail still resolves.

use std::collections::HashMap;

use vstd::prelude::*;

use crate::model::Proto;
use crate::text;

verus! {

broadcast use vstd::std_specs::hash::group_hash_axioms;

/// Curated common ports — accurate names for the traffic that dominates a
/// developer's box, independent of `/etc/services` being present or complete.
pub open spec fn curated(port: u16) -> Option<Seq<char>> {
    match port {
        53 => Some("dns"@),
        67 | 68 => Some("dhcp"@),
        80 => Some("http"@),
        123 => Some("ntp"@),
        143 => Some("imap"@),
        179 => Some("bgp"@),
        443 => Some("https"@),
        465 => Some("smtps"@),
        587 => Some("submission"@),
        993 => Some("imaps"@),
        995 => Some("pop3s"@),
        5223 => Some("apns"@),
        3478 | 3479 => Some("stun"@),
        5060 => Some("sip"@),
        5061 => Some("sips"@),
        8080 => Some("http-alt"@),
        8443 => Some("https-alt"@),
        1900 => Some("ssdp"@),
        5353 => Some("mdns"@),
        22 => Some("ssh"@),
        3306 => Some("mysql"@),
        5432 => Some("postgres"@),
        6379 => Some("redis"@),
        27017 => Some("mongodb"@),
        11211 => Some("memcached"@),
        9418 => Some("git"@),
        2049 => Some("nfs"@),
        548 => Some("afp"@),
        445 => Some("smb"@),
        631 => Some("ipp"@),
        5228 => Some("gcm"@),
        853 => Some("dns-tls"@),
        4500 => Some("ipsec-nat-t"@),
        500 => Some("isakmp"@),
        1194 => Some("openvpn"@),
        51820 => Some("wireguard"@),
        _ => None,
    }
}

/// A resolver: curated names plus any `/etc/services` entries layered under them.
#[derive(Clone, Default)]
pub struct Services {
    tcp: HashMap<u16, String>,
    udp: HashMap<u16, String>,
}

/// The names known per protocol, as characters.
pub ghost struct ServicesView {
    pub tcp: Map<u16, Seq<char>>,
    pub udp: Map<u16, Seq<char>>,
}

spec fn name_views(m: Map<u16, String>) -> Map<u16, Seq<char>> {
    m.map_values(|s: String| s@)
}

impl View for Services {
    type V = ServicesView;

    closed spec fn view(&self) -> ServicesView {
        ServicesView { tcp: name_views(self.tcp@), udp: name_views(self.udp@) }
    }
}

/// The curated names by port.
pub open spec fn curated_names() -> Map<u16, Seq<char>> {
    Map::new(|port: u16| curated(port) is Some, |port: u16| curated(port)->0)
}

/// `names` with a name for `port`, unless it has one.
pub open spec fn filled(names: Map<u16, Seq<char>>, port: u16, name: Seq<char>) -> Map<
    u16,
    Seq<char>,
> {
    if names.contains_key(port) {
        names
    } else {
        names.insert(port, name)
    }
}

// ---- the grammar of /etc/services ------------------------------------------

/// Unicode white space.
pub open spec fn is_space(c: char) -> bool {
    let x = c as u32;
    ||| 0x9 <= x <= 0xd
    ||| x == 0x20
    ||| x == 0x85
    ||| x == 0xa0
    ||| x == 0x1680
    ||| 0x2000 <= x <= 0x200a
    ||| x == 0x2028
    ||| x == 0x2029
    ||| x == 0x202f
    ||| x == 0x205f
    ||| x == 0x3000
}

/// Where `c` first stands in `s`, or the length of `s`.
pub open spec fn first_at(s: Seq<char>, c: char) -> nat
    decreases s.len(),
{
    if s.len() == 0 || s[0] == c {
        0
    } else {
        1 + first_at(s.drop_first(), c)
    }
}

/// How many characters `s` starts with that are white space (`space`) or are not.
pub open spec fn leading(s: Seq<char>, space: bool) -> nat
    decreases s.len(),
{
    if s.len() == 0 || is_space(s[0]) != space {
        0
    } else {
        1 + leading(s.drop_first(), space)
    }
}

/// `s` without the white space it starts with.
pub open spec fn trimmed(s: Seq<char>) -> Seq<char> {
    s.skip(leading(s, true) as int)
}

/// The first word of `s`; empty if it has none.
pub open spec fn word(s: Seq<char>) -> Seq<char> {
    trimmed(s).take(leading(trimmed(s), false) as int)
}

/// What follows the first word of `s`.
pub open spec fn after_word(s: Seq<char>) -> Seq<char> {
    trimmed(s).skip(leading(trimmed(s), false) as int)
}

/// Whether `c` is a decimal digit.
pub open spec fn is_digit(c: char) -> bool {
    '0' <= c <= '9'
}

/// The number that decimal digits spell.
pub open spec fn number(s: Seq<char>) -> nat
    decreases s.len(),
{
    if s.len() == 0 {
        0
    } else {
        10 * number(s.drop_last()) + (s.last() as nat - '0' as nat) as nat
    }
}

/// `s` without a plus sign before it.
pub open spec fn unsigned(s: Seq<char>) -> Seq<char> {
    if s.len() > 0 && s[0] == '+' {
        s.skip(1)
    } else {
        s
    }
}

/// The port that `s` spells: decimal digits, with or without a plus sign, no more
/// than 65535.
pub open spec fn port_number(s: Seq<char>) -> Option<u16> {
    let digits = unsigned(s);
    if digits.len() > 0 && (forall|i: int| 0 <= i < digits.len() ==> is_digit(#[trigger] digits[i]))
        && number(digits) <= 65535 {
        Some(number(digits) as u16)
    } else {
        None
    }
}

/// The protocol that `s` names.
pub open spec fn proto_named(s: Seq<char>) -> Option<Proto> {
    if s == "tcp"@ {
        Some(Proto::Tcp)
    } else if s == "udp"@ {
        Some(Proto::Udp)
    } else {
        None
    }
}

/// The entry of a line: up to a `#`, the name and then `port/protocol`; whatever
/// follows those is ignored. A line of any other form has none.
pub open spec fn entry(line: Seq<char>) -> Option<(u16, Proto, Seq<char>)> {
    let text = line.take(first_at(line, '#') as int);
    let name = word(text);
    let place = word(after_word(text));
    let slash = first_at(place, '/') as int;
    if name.len() > 0 && slash < place.len() && port_number(place.take(slash)) is Some
        && proto_named(place.skip(slash + 1)) is Some {
        Some((port_number(place.take(slash))->0, proto_named(place.skip(slash + 1))->0, name))
    } else {
        None
    }
}

impl ServicesView {
    /// The names of a protocol.
    pub open spec fn names(self, proto: Proto) -> Map<u16, Seq<char>> {
        match proto {
            Proto::Tcp => self.tcp,
            Proto::Udp => self.udp,
        }
    }

    /// The names with the entry of one line filled in.
    pub open spec fn with_line(self, line: Seq<char>) -> ServicesView {
        match entry(line) {
            Some((port, Proto::Tcp, name)) => ServicesView {
                tcp: filled(self.tcp, port, name),
                ..self
            },
            Some((port, Proto::Udp, name)) => ServicesView {
                udp: filled(self.udp, port, name),
                ..self
            },
            None => self,
        }
    }

    /// The names with the entries of every line filled in, first lines first.
    pub open spec fn merged(self, content: Seq<char>) -> ServicesView
        decreases content.len(),
    {
        let end = first_at(content, '\n') as int;
        let first = self.with_line(content.take(end));
        if end < content.len() {
            first.merged(content.skip(end + 1))
        } else {
            first
        }
    }
}

proof fn lemma_first_at(s: Seq<char>, c: char, n: int)
    requires
        0 <= n <= s.len(),
        forall|i: int| 0 <= i < n ==> s[i] != c,
        n < s.len() ==> s[n] == c,
    ensures
        first_at(s, c) == n,
    decreases n,
{
    if n > 0 {
        lemma_first_at(s.drop_first(), c, n - 1);
    }
}

proof fn lemma_leading(s: Seq<char>, space: bool, n: int)
    requires
        0 <= n <= s.len(),
        forall|i: int| 0 <= i < n ==> is_space(s[i]) == space,
        n < s.len() ==> is_space(s[n]) != space,
    ensures
        leading(s, space) == n,
    decreases n,
{
    if n > 0 {
        lemma_leading(s.drop_first(), space, n - 1);
    }
}

fn find(chars: &Vec<char>, from: usize, to: usize, c: char) -> (r: usize)
    requires
        from <= to <= chars@.len(),
    ensures
        from <= r <= to,
        r - from == first_at(chars@.subrange(from as int, to as int), c),
{
    let mut r: usize = from;
    let ghost s = chars@.subrange(from as int, to as int);
    while r < to && chars[r] != c
        invariant
            from <= r <= to <= chars@.len(),
            s == chars@.subrange(from as int, to as int),
            forall|i: int| 0 <= i < r - from ==> s[i] != c,
        ensures
            r < to ==> s[r - from] == c,
        decreases to - r,
    {
        r += 1;
    }
    proof {
        lemma_first_at(s, c, r - from);
    }
    r
}

fn is_white(c: char) -> (r: bool)
    ensures
        r == is_space(c),
{
    let x: u32 = c as u32;
    (0x9 <= x && x <= 0xd) || x == 0x20 || x == 0x85 || x == 0xa0 || x == 0x1680 || (0x2000 <= x
        && x <= 0x200a) || x == 0x2028 || x == 0x2029 || x == 0x202f || x == 0x205f || x == 0x3000
}

fn skip_while(chars: &Vec<char>, from: usize, to: usize, space: bool) -> (r: usize)
    requires
        from <= to <= chars@.len(),
    ensures
        from <= r <= to,
        r - from == leading(chars@.subrange(from as int, to as int), space),
{
    let mut r: usize = from;
    let ghost s = chars@.subrange(from as int, to as int);
    while r < to && is_white(chars[r]) == space
        invariant
            from <= r <= to <= chars@.len(),
            s == chars@.subrange(from as int, to as int),
            forall|i: int| 0 <= i < r - from ==> is_space(s[i]) == space,
        ensures
            r < to ==> is_space(s[r - from]) != space,
        decreases to - r,
    {
        r += 1;
    }
    proof {
        lemma_leading(s, space, r - from);
    }
    r
}

/// A prefix that is already too large stays too large.
proof fn lemma_number_grows(s: Seq<char>, n: int)
    requires
        0 <= n <= s.len(),
        forall|i: int| 0 <= i < s.len() ==> is_digit(#[trigger] s[i]),
    ensures
        number(s.take(n)) <= number(s),
    decreases s.len() - n,
{
    if n < s.len() {
        lemma_number_grows(s, n + 1);
        assert(s.take(n + 1).drop_last() =~= s.take(n));
        assert(s.take(n + 1).last() == s[n]);
    } else {
        assert(s.take(n) =~= s);
    }
}

fn parse_port(chars: &Vec<char>, from: usize, to: usize) -> (r: Option<u16>)
    requires
        from <= to <= chars@.len(),
    ensures
        r == port_number(chars@.subrange(from as int, to as int)),
{
    let ghost s = chars@.subrange(from as int, to as int);
    let start: usize = if from < to && chars[from] == '+' { from + 1 } else { from };
    let ghost digits = unsigned(s);
    assert(digits =~= chars@.subrange(start as int, to as int));
    if start == to {
        return None;
    }
    let mut v: u32 = 0;
    let mut i: usize = start;
    assert(digits.take(0) =~= seq![]);
    while i < to
        invariant
            start <= i <= to <= chars@.len(),
            start < to,
            digits == unsigned(s),
            s == chars@.subrange(from as int, to as int),
            digits == chars@.subrange(start as int, to as int),
            forall|j: int| 0 <= j < i - start ==> is_digit(#[trigger] digits[j]),
            v == number(digits.take(i - start)),
            v <= 65535,
        decreases to - i,
    {
        let c: char = chars[i];
        assert(c == digits[i - start]);
        if c < '0' || c > '9' {
            assert(!is_digit(digits[i - start]));
            return None;
        }
        let ghost next = digits.take(i - start + 1);
        assert(next.drop_last() =~= digits.take(i - start));
        v = 10 * v + (c as u32 - '0' as u32);
        assert(v == number(next));
        if v > 65535 {
            proof {
                if forall|j: int| 0 <= j < digits.len() ==> is_digit(#[trigger] digits[j]) {
                    lemma_number_grows(digits, i - start + 1);
                }
            }
            return None;
        }
        i += 1;
    }
    assert(digits.take(digits.len() as int) =~= digits);
    Some(v as u16)
}

fn range_is(chars: &Vec<char>, from: usize, to: usize, want: &str) -> (r: bool)
    requires
        from <= to <= chars@.len(),
    ensures
        r == (chars@.subrange(from as int, to as int) == want@),
{
    let w: Vec<char> = text::chars_of(want);
    let ghost s = chars@.subrange(from as int, to as int);
    if to - from != w.len() {
        return false;
    }
    let mut i: usize = 0;
    while i < w.len()
        invariant
            i <= w@.len(),
            w@ == want@,
            s == chars@.subrange(from as int, to as int),
            from + w@.len() == to <= chars@.len(),
            forall|j: int| 0 <= j < i ==> s[j] == w@[j],
        decreases w@.len() - i,
    {
        if chars[from + i] != w[i] {
            assert(s[i as int] != want@[i as int]);
            return false;
        }
        i += 1;
    }
    assert(s =~= want@);
    true
}

fn fill(names: &mut HashMap<u16, String>, port: u16, name: String)
    ensures
        name_views(final(names)@) == filled(name_views(old(names)@), port, name@),
{
    if !names.contains_key(&port) {
        names.insert(port, name);
    }
    assert(name_views(names@) =~= filled(name_views(old(names)@), port, name@));
}

impl Services {
    fn curate(&mut self, port: u16, name: &str)
        ensures
            final(self)@.tcp == old(self)@.tcp.insert(port, name@),
            final(self)@.udp == old(self)@.udp.insert(port, name@),
    {
        self.tcp.insert(port, name.to_owned());
        self.udp.insert(port, name.to_owned());
        assert(self@.tcp =~= old(self)@.tcp.insert(port, name@));
        assert(self@.udp =~= old(self)@.udp.insert(port, name@));
    }

    /// Build from the curated table only (no system file).
    pub fn builtin() -> (s: Self)
        ensures
            s@.tcp == curated_names(),
            s@.udp == curated_names(),
    {
        let mut s = Services { tcp: HashMap::new(), udp: HashMap::new() };
        assert(s@.tcp =~= Map::empty());
        assert(s@.udp =~= Map::empty());
        s.curate(53, "dns");
        s.curate(67, "dhcp");
        s.curate(68, "dhcp");
        s.curate(80, "http");
        s.curate(123, "ntp");
        s.curate(143, "imap");
        s.curate(179, "bgp");
        s.curate(443, "https");
        s.curate(465, "smtps");
        s.curate(587, "submission");
        s.curate(993, "imaps");
        s.curate(995, "pop3s");
        s.curate(5223, "apns");
        s.curate(3478, "stun");
        s.curate(3479, "stun");
        s.curate(5060, "sip");
        s.curate(5061, "sips");
        s.curate(8080, "http-alt");
        s.curate(8443, "https-alt");
        s.curate(1900, "ssdp");
        s.curate(5353, "mdns");
        s.curate(22, "ssh");
        s.curate(3306, "mysql");
        s.curate(5432, "postgres");
        s.curate(6379, "redis");
        s.curate(27017, "mongodb");
        s.curate(11211, "memcached");
        s.curate(9418, "git");
        s.curate(2049, "nfs");
        s.curate(548, "afp");
        s.curate(445, "smb");
        s.curate(631, "ipp");
        s.curate(5228, "gcm");
        s.curate(853, "dns-tls");
        s.curate(4500, "ipsec-nat-t");
        s.curate(500, "isakmp");
        s.curate(1194, "openvpn");
        s.curate(51820, "wireguard");
        assert(s@.tcp =~= curated_names());
        assert(s@.udp =~= curated_names());
        s
    }

    fn merge_line(&mut self, chars: &Vec<char>, from: usize, to: usize)
        requires
            from <= to <= chars@.len(),
        ensures
            final(self)@ == old(self)@.with_line(chars@.subrange(from as int, to as int)),
    {
        let ghost line = chars@.subrange(from as int, to as int);
        let end: usize = find(chars, from, to, '#');
        let ghost text = line.take(first_at(line, '#') as int);
        assert(text =~= chars@.subrange(from as int, end as int));
        let a: usize = skip_while(chars, from, end, true);
        assert(trimmed(text) =~= chars@.subrange(a as int, end as int));
        let b: usize = skip_while(chars, a, end, false);
        assert(word(text) =~= chars@.subrange(a as int, b as int));
        let ghost tail = after_word(text);
        assert(tail =~= chars@.subrange(b as int, end as int));
        let c: usize = skip_while(chars, b, end, true);
        assert(trimmed(tail) =~= chars@.subrange(c as int, end as int));
        let d: usize = skip_while(chars, c, end, false);
        let ghost place = word(tail);
        assert(place =~= chars@.subrange(c as int, d as int));
        let slash: usize = find(chars, c, d, '/');
        if a == b || slash == d {
            return ;
        }
        assert(place.take(slash - c) =~= chars@.subrange(c as int, slash as int));
        assert(place.skip(slash - c + 1) =~= chars@.subrange(slash + 1, d as int));
        if let Some(port) = parse_port(chars, c, slash) {
            let name: String = text::string_of(chars, a, b);
            if range_is(chars, slash + 1, d, "tcp") {
                fill(&mut self.tcp, port, name);
            } else if range_is(chars, slash + 1, d, "udp") {
                fill(&mut self.udp, port, name);
            }
        }
    }

    /// Overlay entries parsed from `/etc/services` content. Curated names win,
    /// so this only fills gaps.
    pub fn merge_etc_services(&mut self, content: &str)
        ensures
            final(self)@ == old(self)@.merged(content@),
    {
        let chars: Vec<char> = text::chars_of(content);
        let ghost target = self@.merged(content@);
        let len: usize = chars.len();
        let mut at: usize = 0;
        assert(content@.skip(0) =~= content@);
        loop
            invariant_except_break
                chars@ == content@,
                at <= len == chars@.len(),
                self@.merged(content@.skip(at as int)) == target,
            ensures
                self@ == target,
            decreases len - at,
        {
            let ghost rest = content@.skip(at as int);
            assert(rest =~= chars@.subrange(at as int, len as int));
            let end: usize = find(&chars, at, len, '\n');
            assert(rest.take(end - at) =~= chars@.subrange(at as int, end as int));
            self.merge_line(&chars, at, end);
            if end == len {
                break ;
            }
            assert(rest.skip(end - at + 1) =~= content@.skip(end + 1));
            at = end + 1;
        }
    }

    /// Best-effort name for a port; `None` if unknown.
    pub fn name(&self, port: u16, proto: Proto) -> (r: Option<&str>)
        ensures
            match r {
                Some(n) => self@.names(proto).contains_key(port) && n@ == self@.names(proto)[port],
                None => !self@.names(proto).contains_key(port),
            },
    {
        let found: Option<&String> = match proto {
            Proto::Tcp => self.tcp.get(&port),
            Proto::Udp => self.udp.get(&port),
        };
        match found {
            Some(s) => Some(s.as_str()),
            None => None,
        }
    }

    /// `"443 (https)"` or just `"7777"` when unknown — for the detail pane.
    pub fn label(&self, port: u16, proto: Proto) -> (r: String)
        ensures
            r@ == self@.port_label(port, proto),
    {
        let mut r: String = text::decimal_string(port as u128);
        if let Some(n) = self.name(port, proto) {
            r.append(" (");
            r.append(n);
            r.append(")");
        }
        assert(r@ =~= self@.port_label(port, proto));
        r
    }
}

impl ServicesView {
    /// The port, with the service's name in brackets if it has one.
    pub open spec fn port_label(self, port: u16, proto: Proto) -> Seq<char> {
        if self.names(proto).contains_key(port) {
            text::decimal(port as nat) + " ("@ + self.names(proto)[port] + ")"@
        } else {
            text::decimal(port as nat)
        }
    }
}

// ---- laws ------------------------------------------------------------------

/// Merging a file never changes a name that is there, whatever the file holds.
pub proof fn law_merging_only_fills_gaps(
    v: ServicesView,
    content: Seq<char>,
    port: u16,
    proto: Proto,
)
    requires
        v.names(proto).contains_key(port),
    ensures
        v.merged(content).names(proto).contains_key(port),
        v.merged(content).names(proto)[port] == v.names(proto)[port],
    decreases content.len(),
{
    let end = first_at(content, '\n') as int;
    if end < content.len() {
        law_merging_only_fills_gaps(
            v.with_line(content.take(end)),
            content.skip(end + 1),
            port,
            proto,
        );
    }
}

proof fn lemma_decimal_reads_back(n: nat)
    ensures
        text::decimal(n).len() > 0,
        number(text::decimal(n)) == n,
        forall|i: int| 0 <= i < text::decimal(n).len() ==> is_digit(#[trigger] text::decimal(n)[i]),
    decreases n,
{
    let s = text::decimal(n);
    let d = text::digit((n % 10) as int);
    assert(d as nat == 48 + n % 10);
    if n < 10 {
        assert(s.drop_last() =~= seq![]);
        assert(number(s.drop_last()) == 0);
        assert(s.last() == d);
    } else {
        lemma_decimal_reads_back(n / 10);
        assert(s.drop_last() =~= text::decimal(n / 10));
        assert(s.last() == d);
        assert forall|i: int| 0 <= i < s.len() implies is_digit(#[trigger] s[i]) by {
            if i < s.len() - 1 {
                assert(s[i] == text::decimal(n / 10)[i]);
            }
        }
    }
}

/// A port as it is shown reads back as that port.
pub proof fn law_ports_read_back(port: u16)
    ensures
        port_number(text::decimal(port as nat)) == Some(port),
{
    let s = text::decimal(port as nat);
    lemma_decimal_reads_back(port as nat);
    assert(is_digit(s[0]));
    assert(unsigned(s) == s);
}

/// Curated names win: after any file has been merged, a curated port still has
/// its curated name, for both protocols.
pub proof fn law_curated_names_win(
    v: ServicesView,
    content: Seq<char>,
    port: u16,
    proto: Proto,
)
    requires
        v.tcp == curated_names(),
        v.udp == curated_names(),
        curated(port) is Some,
    ensures
        v.merged(content).names(proto).contains_key(port),
        v.merged(content).names(proto)[port] == curated(port)->0,
{
    law_merging_only_fills_gaps(v, content, port, proto);
}

/// Files merge one after the other as their lines would in one file.
pub proof fn law_merging_is_line_by_line(v: ServicesView, first: Seq<char>, second: Seq<char>)
    ensures
        v.merged(first + seq!['\n'] + second) == v.merged(first).merged(second),
    decreases first.len(),
{
    let both = first + seq!['\n'] + second;
    let end = first_at(first, '\n') as int;
    lemma_first_at_bounds(first, '\n');
    lemma_first_at(both, '\n', end);
    assert(both.take(end) =~= first.take(end));
    if end < first.len() {
        law_merging_is_line_by_line(v.with_line(first.take(end)), first.skip(end + 1), second);
        assert(both.skip(end + 1) =~= first.skip(end + 1) + seq!['\n'] + second);
    } else {
        assert(both.skip(end + 1) =~= second);
    }
}

proof fn lemma_first_at_bounds(s: Seq<char>, c: char)
    ensures
        first_at(s, c) <= s.len(),
        forall|i: int| 0 <= i < first_at(s, c) ==> s[i] != c,
        first_at(s, c) < s.len() ==> s[first_at(s, c) as int] == c,
    decreases s.len(),
{
    if s.len() > 0 && s[0] != c {
        lemma_first_at_bounds(s.drop_first(), c);
        let rest = s.drop_first();
        assert forall|i: int| 0 <= i < first_at(s, c) implies s[i] != c by {
            if i > 0 {
                assert(rest[i - 1] == s[i]);
            }
        }
    }
}

/// The curated names.
pub proof fn law_curated_names()
    ensures
        curated(53) == Some("dns"@),
        curated(67) == Some("dhcp"@),
        curated(68) == Some("dhcp"@),
        curated(80) == Some("http"@),
        curated(123) == Some("ntp"@),
        curated(143) == Some("imap"@),
        curated(179) == Some("bgp"@),
        curated(443) == Some("https"@),
        curated(465) == Some("smtps"@),
        curated(587) == Some("submission"@),
        curated(993) == Some("imaps"@),
        curated(995) == Some("pop3s"@),
        curated(5223) == Some("apns"@),
        curated(3478) == Some("stun"@),
        curated(3479) == Some("stun"@),
        curated(5060) == Some("sip"@),
        curated(5061) == Some("sips"@),
        curated(8080) == Some("http-alt"@),
        curated(8443) == Some("https-alt"@),
        curated(1900) == Some("ssdp"@),
        curated(5353) == Some("mdns"@),
        curated(22) == Some("ssh"@),
        curated(3306) == Some("mysql"@),
        curated(5432) == Some("postgres"@),
        curated(6379) == Some("redis"@),
        curated(27017) == Some("mongodb"@),
        curated(11211) == Some("memcached"@),
        curated(9418) == Some("git"@),
        curated(2049) == Some("nfs"@),
        curated(548) == Some("afp"@),
        curated(445) == Some("smb"@),
        curated(631) == Some("ipp"@),
        curated(5228) == Some("gcm"@),
        curated(853) == Some("dns-tls"@),
        curated(4500) == Some("ipsec-nat-t"@),
        curated(500) == Some("isakmp"@),
        curated(1194) == Some("openvpn"@),
        curated(51820) == Some("wireguard"@),
        curated_names().dom().len() == 38,
{
    lemma_curated_ports();
}

proof fn lemma_curated_ports()
    ensures
        curated_names().dom().len() == 38,
{
    let ports: Seq<u16> = seq![22u16, 53u16, 67u16, 68u16, 80u16, 123u16, 143u16, 179u16, 443u16, 445u16, 465u16, 500u16, 548u16, 587u16, 631u16, 853u16, 993u16, 995u16, 1194u16, 1900u16, 2049u16, 3306u16, 3478u16, 3479u16, 4500u16, 5060u16, 5061u16, 5223u16, 5228u16, 5353u16, 5432u16, 6379u16, 8080u16, 8443u16, 9418u16, 11211u16, 27017u16, 51820u16];
    assert(ports.no_duplicates());
    ports.unique_seq_to_set();
    assert forall|p: u16| curated_names().dom().contains(p) <==> ports.to_set().contains(p) by {
        if curated_names().dom().contains(p) {
            assert(p == ports[0]
                || p == ports[1]
                || p == ports[2]
                || p == ports[3]
                || p == ports[4]
                || p == ports[5]
                || p == ports[6]
                || p == ports[7]
                || p == ports[8]
                || p == ports[9]
                || p == ports[10]
                || p == ports[11]
                || p == ports[12]
                || p == ports[13]
                || p == ports[14]
                || p == ports[15]
                || p == ports[16]
                || p == ports[17]
                || p == ports[18]
                || p == ports[19]
                || p == ports[20]
                || p == ports[21]
                || p == ports[22]
                || p == ports[23]
                || p == ports[24]
                || p == ports[25]
                || p == ports[26]
                || p == ports[27]
                || p == ports[28]
                || p == ports[29]
                || p == ports[30]
                || p == ports[31]
                || p == ports[32]
                || p == ports[33]
                || p == ports[34]
                || p == ports[35]
                || p == ports[36]
                || p == ports[37]);
        }
        if ports.contains(p) {
            let i = choose|i: int| 0 <= i < ports.len() && ports[i] == p;
            assert(curated(ports[i]) is Some);
        }
    }
    assert(curated_names().dom() =~= ports.to_set());
}

/// Each protocol has its own names, and a port is shown with the name it has
/// there.
pub proof fn law_labels(v: ServicesView, port: u16)
    ensures
        v.names(Proto::Tcp) == v.tcp,
        v.names(Proto::Udp) == v.udp,
        v.tcp.contains_key(port) ==> v.port_label(port, Proto::Tcp) == text::decimal(port as nat)
            + " ("@ + v.tcp[port] + ")"@,
        v.udp.contains_key(port) ==> v.port_label(port, Proto::Udp) == text::decimal(port as nat)
            + " ("@ + v.udp[port] + ")"@,
        !v.tcp.contains_key(port) ==> v.port_label(port, Proto::Tcp) == text::decimal(port as nat),
        !v.udp.contains_key(port) ==> v.port_label(port, Proto::Udp) == text::decimal(port as nat),
{
}

/// A line names one port of one protocol if that has no name yet, and changes
/// nothing else; a line without an entry changes nothing.
pub proof fn law_line_fills_one_gap(v: ServicesView, line: Seq<char>, other: u16)
    ensures
        entry(line) is None ==> v.with_line(line) == v,
        entry(line) matches Some((port, proto, name)) ==> {
            let after = v.with_line(line);
            &&& after.names(proto).contains_key(port)
            &&& !v.names(proto).contains_key(port) ==> after.names(proto)[port] == name
            &&& v.names(proto).contains_key(port) ==> after == v
            &&& other != port ==> after.names(proto).contains_key(other) == v.names(
                proto,
            ).contains_key(other)
            &&& other != port && v.names(proto).contains_key(other) ==> after.names(proto)[other]
                == v.names(proto)[other]
            &&& proto == Proto::Tcp ==> after.udp == v.udp
            &&& proto == Proto::Udp ==> after.tcp == v.tcp
        },
{
}

/// A file of one line has the effect of that line.
pub proof fn law_single_line_file(v: ServicesView, line: Seq<char>)
    requires
        forall|i: int| 0 <= i < line.len() ==> line[i] != '\n',
    ensures
        v.merged(line) == v.with_line(line),
{
    lemma_first_at(line, '\n', line.len() as int);
    assert(line.take(line.len() as int) =~= line);
}

proof fn lemma_number_is_spelled(s: Seq<char>)
    requires
        forall|i: int| 0 <= i < s.len() ==> is_digit(#[trigger] s[i]),
    ensures
        number(s) == text::spelled(s),
    decreases s.len(),
{
    if s.len() > 0 {
        let front = s.drop_last();
        assert forall|i: int| 0 <= i < front.len() implies is_digit(#[trigger] front[i]) by {
            assert(front[i] == s[i]);
        }
        lemma_number_is_spelled(front);
        assert(is_digit(s[s.len() - 1]));
    }
}

/// Whether every character is a decimal digit.
pub open spec fn all_digits(s: Seq<char>) -> bool {
    forall|i: int| 0 <= i < s.len() ==> '0' <= #[trigger] s[i] && s[i] <= '9'
}

/// A port is one digit or more, a plus sign before them or not, that spell a
/// number no larger than 65535; it is that number.
pub proof fn law_port_numbers(s: Seq<char>)
    ensures
        ({
            let digits = if s.len() > 0 && s[0] == '+' {
                s.subrange(1, s.len() as int)
            } else {
                s
            };
            if digits.len() > 0 && all_digits(digits) && text::spelled(digits) <= 65535 {
                port_number(s) == Some(text::spelled(digits) as u16)
            } else {
                port_number(s) is None
            }
        }),
{
    let digits = unsigned(s);
    if s.len() > 0 && s[0] == '+' {
        assert(digits =~= s.subrange(1, s.len() as int));
    }
    if all_digits(digits) {
        assert forall|i: int| 0 <= i < digits.len() implies is_digit(#[trigger] digits[i]) by {}
        lemma_number_is_spelled(digits);
    } else {
        let i = choose|i: int|
            0 <= i < digits.len() && !('0' <= #[trigger] digits[i] && digits[i] <= '9');
        assert(!is_digit(digits[i]));
    }
}

/// The protocol's name in a line.
pub open spec fn proto_text(proto: Proto) -> Seq<char> {
    if proto == Proto::Tcp {
        seq!['t', 'c', 'p']
    } else {
        seq!['u', 'd', 'p']
    }
}

/// White space is what Unicode says it is.
pub proof fn law_white_space(c: char)
    ensures
        is_space(c) <==> c == ' ' || ('\t' <= c && c <= '\r') || c == '\u{85}' || c == '\u{a0}' || c
            == '\u{1680}' || ('\u{2000}' <= c && c <= '\u{200a}') || c == '\u{2028}' || c
            == '\u{2029}' || c == '\u{202f}' || c == '\u{205f}' || c == '\u{3000}',
{
}

/// Whether every character is white space.
pub open spec fn all_blank(s: Seq<char>) -> bool {
    forall|i: int| 0 <= i < s.len() ==> is_space(#[trigger] s[i])
}

/// Whether no character is white space or starts a comment.
pub open spec fn all_visible(s: Seq<char>) -> bool {
    forall|i: int| 0 <= i < s.len() ==> !is_space(#[trigger] s[i]) && s[i] != '#'
}

/// A line of the file's form has the entry that it spells: name, blanks, port and
/// protocol, with blanks before them and aliases or a comment after them.
pub proof fn law_entries_are_read(
    lead: Seq<char>,
    name: Seq<char>,
    gap: Seq<char>,
    digits: Seq<char>,
    port: u16,
    proto: Proto,
    tail: Seq<char>,
)
    requires
        all_blank(lead),
        all_blank(gap),
        gap.len() > 0,
        all_visible(name),
        name.len() > 0,
        port_number(digits) == Some(port),
        tail.len() == 0 || is_space(tail[0]) || tail[0] == '#',
    ensures
        entry(lead + name + gap + digits + seq!['/'] + proto_text(proto) + tail) == Some(
            (port, proto, name),
        ),
{
    let place = digits + seq!['/'] + proto_text(proto);
    let core = lead + name + gap + place;
    let line = lead + name + gap + digits + seq!['/'] + proto_text(proto) + tail;
    assert(line =~= core + tail);
    lemma_place(digits, port, proto);
    assert forall|i: int| 0 <= i < name.len() implies !is_space(#[trigger] name[i]) by {}
    assert forall|i: int| 0 <= i < core.len() implies core[i] != '#' by {
        if i < lead.len() {
            assert(core[i] == lead[i]);
        } else if i < lead.len() + name.len() {
            assert(core[i] == name[i - lead.len()]);
        } else if i < lead.len() + name.len() + gap.len() {
            assert(core[i] == gap[i - lead.len() - name.len()]);
        } else {
            assert(core[i] == place[i - lead.len() - name.len() - gap.len()]);
        }
    }
    let t = lemma_comment_cut(core, tail);
    let text = line.take(first_at(line, '#') as int);
    assert(text =~= lead + name + (gap + place + t));
    assert((gap + place + t)[0] == gap[0]);
    lemma_first_word(lead, name, gap + place + t);
    lemma_first_word(gap, place, t);
}

/// What is left of a line without its comment, when there is none in `core` and
/// `tail` does not run on from it.
proof fn lemma_comment_cut(core: Seq<char>, tail: Seq<char>) -> (t: Seq<char>)
    requires
        forall|i: int| 0 <= i < core.len() ==> core[i] != '#',
        tail.len() == 0 || is_space(tail[0]) || tail[0] == '#',
    ensures
        (core + tail).take(first_at(core + tail, '#') as int) == core + t,
        t.len() > 0 ==> is_space(t[0]),
{
    let line = core + tail;
    let k = first_at(tail, '#') as int;
    lemma_first_at_bounds(tail, '#');
    assert forall|i: int| 0 <= i < core.len() + k implies line[i] != '#' by {
        if i < core.len() {
            assert(line[i] == core[i]);
        } else {
            assert(line[i] == tail[i - core.len()]);
        }
    }
    lemma_first_at(line, '#', core.len() + k);
    let t = tail.take(k);
    assert(line.take(core.len() + k) =~= core + t);
    t
}

/// The first word of a text, and what follows it.
proof fn lemma_first_word(lead: Seq<char>, w: Seq<char>, rest: Seq<char>)
    requires
        all_blank(lead),
        w.len() > 0,
        forall|i: int| 0 <= i < w.len() ==> !is_space(#[trigger] w[i]),
        rest.len() > 0 ==> is_space(rest[0]),
    ensures
        word(lead + w + rest) == w,
        after_word(lead + w + rest) == rest,
{
    let s = lead + w + rest;
    assert forall|i: int| 0 <= i < lead.len() implies is_space(s[i]) == true by {
        assert(s[i] == lead[i]);
    }
    assert(s[lead.len() as int] == w[0]);
    lemma_leading(s, true, lead.len() as int);
    let t = w + rest;
    assert(trimmed(s) =~= t);
    assert forall|i: int| 0 <= i < w.len() implies is_space(t[i]) == false by {
        assert(t[i] == w[i]);
    }
    if rest.len() > 0 {
        assert(t[w.len() as int] == rest[0]);
    }
    lemma_leading(t, false, w.len() as int);
    assert(word(s) =~= w);
    assert(after_word(s) =~= rest);
}

/// A port and a protocol read back from the word that they make.
proof fn lemma_place(digits: Seq<char>, port: u16, proto: Proto)
    requires
        port_number(digits) == Some(port),
    ensures
        ({
            let place = digits + seq!['/'] + proto_text(proto);
            let slash = first_at(place, '/') as int;
            &&& forall|i: int|
                0 <= i < place.len() ==> !is_space(#[trigger] place[i]) && place[i] != '#'
            &&& slash < place.len()
            &&& port_number(place.take(slash)) == Some(port)
            &&& proto_named(place.skip(slash + 1)) == Some(proto)
        }),
{
    let place = digits + seq!['/'] + proto_text(proto);
    assert forall|i: int| 0 <= i < digits.len() implies is_digit(#[trigger] digits[i]) || digits[i]
        == '+' by {
        let bare = unsigned(digits);
        if digits[0] == '+' {
            if i > 0 {
                assert(is_digit(bare[i - 1]) && bare[i - 1] == digits[i]);
            }
        } else {
            assert(is_digit(bare[i]));
        }
    }
    assert forall|i: int| 0 <= i < place.len() implies !is_space(#[trigger] place[i]) && place[i]
        != '#' by {
        if i < digits.len() {
            assert((is_digit(digits[i]) || digits[i] == '+') && place[i] == digits[i]);
        }
    }
    assert forall|i: int| 0 <= i < digits.len() implies place[i] != '/' by {
        assert((is_digit(digits[i]) || digits[i] == '+') && place[i] == digits[i]);
    }
    lemma_first_at(place, '/', digits.len() as int);
    assert(place.take(digits.len() as int) =~= digits);
    assert(place.skip(digits.len() as int + 1) =~= proto_text(proto));
    reveal_strlit("tcp");
    reveal_strlit("udp");
    assert("tcp"@ =~= seq!['t', 'c', 'p']);
    assert("udp"@ =~= seq!['u', 'd', 'p']);
    assert(seq!['t', 'c', 'p'][0] != seq!['u', 'd', 'p'][0]);
}

/// Whether the line is made of these parts, one after the other.
pub open spec fn made_of(
    line: Seq<char>,
    lead: Seq<char>,
    name: Seq<char>,
    gap: Seq<char>,
    port: Seq<char>,
    proto: Proto,
    tail: Seq<char>,
) -> bool {
    line == lead + name + gap + port + seq!['/'] + proto_text(proto) + tail
}

/// No line has an entry that it does not spell: the name as its first word, then
/// as its second a port that reads as the entry's and its protocol, before any
/// comment.
pub proof fn law_entries_are_spelled_out(line: Seq<char>, port: u16, proto: Proto, name: Seq<char>)
    requires
        entry(line) == Some((port, proto, name)),
    ensures
        name.len() > 0,
        exists|lead: Seq<char>, gap: Seq<char>, digits: Seq<char>, tail: Seq<char>| #[trigger]
            made_of(line, lead, name, gap, digits, proto, tail) && all_blank(lead) && all_blank(gap)
                && gap.len() > 0 && all_visible(name) && port_number(digits) == Some(port) && (
            tail.len() == 0 || is_space(tail[0]) || tail[0] == '#'),
{
    let k = first_at(line, '#') as int;
    lemma_first_at_bounds(line, '#');
    let text = line.take(k);
    let after = after_word(text);
    let place = word(after);
    let slash = first_at(place, '/') as int;
    lemma_first_at_bounds(place, '/');
    let digits = place.take(slash);
    let lead = lemma_word_split(text);
    let gap = lemma_word_split(after);
    let tail = after_word(after) + line.skip(k);
    reveal_strlit("tcp");
    reveal_strlit("udp");
    assert("tcp"@ =~= seq!['t', 'c', 'p']);
    assert("udp"@ =~= seq!['u', 'd', 'p']);
    assert(place =~= digits + seq!['/'] + proto_text(proto));
    assert(line =~= text + line.skip(k));
    lemma_parts_join(line, lead, name, gap, digits, proto, after_word(after), line.skip(k));
    assert(made_of(line, lead, name, gap, digits, proto, tail));
    assert(all_visible(name)) by {
        assert forall|i: int| 0 <= i < name.len() implies !is_space(#[trigger] name[i]) && name[i]
            != '#' by {
            assert(name[i] == text[lead.len() + i]);
            assert(text[lead.len() + i] == line[lead.len() + i]);
        }
    }
    assert(after.len() > 0);
    assert(gap.len() > 0);
    let end = after_word(after);
    assert(end.len() > 0 ==> tail[0] == end[0]);
    assert(end.len() == 0 ==> tail =~= line.skip(k));
}

proof fn lemma_parts_join(
    line: Seq<char>,
    lead: Seq<char>,
    name: Seq<char>,
    gap: Seq<char>,
    digits: Seq<char>,
    proto: Proto,
    after: Seq<char>,
    comment: Seq<char>,
)
    requires
        line == (lead + name + (gap + (digits + seq!['/'] + proto_text(proto)) + after)) + comment,
    ensures
        line == lead + name + gap + digits + seq!['/'] + proto_text(proto) + (after + comment),
{
    assert(line =~= lead + name + gap + digits + seq!['/'] + proto_text(proto) + (after + comment));
}

proof fn lemma_word_split(s: Seq<char>) -> (lead: Seq<char>)
    ensures
        s == lead + word(s) + after_word(s),
        all_blank(lead),
        forall|i: int| 0 <= i < word(s).len() ==> !is_space(#[trigger] word(s)[i]),
        after_word(s).len() > 0 ==> is_space(after_word(s)[0]),
        word(s).len() > 0 && s.len() > 0 && is_space(s[0]) ==> lead.len() > 0,
{
    lemma_leading_bound(s, true);
    lemma_leading_bound(trimmed(s), false);
    let lead = s.take(leading(s, true) as int);
    assert(s =~= lead + word(s) + after_word(s));
    lead
}

proof fn lemma_leading_bound(s: Seq<char>, space: bool)
    ensures
        leading(s, space) <= s.len(),
        forall|i: int| 0 <= i < leading(s, space) ==> is_space(#[trigger] s[i]) == space,
        leading(s, space) < s.len() ==> is_space(s[leading(s, space) as int]) != space,
    decreases s.len(),
{
    if s.len() > 0 && is_space(s[0]) == space {
        let rest = s.drop_first();
        lemma_leading_bound(rest, space);
        assert forall|i: int| 0 <= i < leading(s, space) implies is_space(#[trigger] s[i])
            == space by {
            if i > 0 {
                assert(rest[i - 1] == s[i]);
            }
        }
    }
}

} // verus!
