//! Internet addresses: plain numbers, with their textual forms.
use vstd::prelude::*;

use crate::text;

verus! {

/// An address of either family, as the number its bytes make up in network order.
#[derive(Debug, Clone, Copy, PartialEq, Eq, Structural)]
pub enum IpAddr {
    V4(u32),
    V6(u128),
}

/// An address and a port. A link-local IPv6 address means something only together with the number of
/// an interface, its scope; zero is none.
#[derive(Debug, Clone, Copy, PartialEq, Eq, Structural)]
pub struct SocketAddr {
    pub ip: IpAddr,
    pub port: u16,
    pub scope: u32,
}

impl IpAddr {
    pub fn is_ipv4(&self) -> (r: bool)
        ensures
            r == (self is V4),
    {
        match self {
            IpAddr::V4(_) => true,
            IpAddr::V6(_) => false,
        }
    }

    pub fn is_ipv6(&self) -> (r: bool)
        ensures
            r == (self is V6),
    {
        !self.is_ipv4()
    }

    /// The address that stands for "any".
    pub open spec fn unspecified(self) -> bool {
        self == IpAddr::V4(0) || self == IpAddr::V6(0)
    }

    pub fn is_unspecified(&self) -> (r: bool)
        ensures
            r == self.unspecified(),
    {
        match self {
            IpAddr::V4(n) => *n == 0,
            IpAddr::V6(n) => *n == 0,
        }
    }
}

impl SocketAddr {
    /// Only IPv6 has scopes.
    pub open spec fn wf(self) -> bool {
        self.ip is V4 ==> self.scope == 0
    }
}

pub fn v4(a: u8, b: u8, c: u8, d: u8) -> (r: IpAddr)
    ensures
        r == IpAddr::V4((a * 0x100_0000 + b * 0x1_0000 + c * 0x100 + d) as u32),
{
    IpAddr::V4(a as u32 * 0x100_0000 + b as u32 * 0x1_0000 + c as u32 * 0x100 + d as u32)
}

// ------------------------------------------------------------------ IPv4 text

/// One number of a dotted quad: no leading zero, at most 255.
pub open spec fn octet_of(s: Seq<char>) -> Option<nat> {
    if 1 <= s.len() <= 3 && text::all_digits(s) && (s.len() > 1 ==> s[0] != '0') && text::value10(s)
        <= 255 {
        Some(text::value10(s))
    } else {
        None
    }
}

/// The number of a dotted quad.
pub open spec fn v4_of(s: Seq<char>) -> Option<nat> {
    let p = text::split(s, '.');
    if p.len() != 4 {
        None
    } else {
        match (octet_of(p[0]), octet_of(p[1]), octet_of(p[2]), octet_of(p[3])) {
            (Some(a), Some(b), Some(c), Some(d)) => Some(
                a * 0x100_0000 + b * 0x1_0000 + c * 0x100 + d,
            ),
            _ => None,
        }
    }
}

fn parse_octet(s: &[char]) -> (r: Option<u8>)
    ensures
        match r {
            Some(n) => octet_of(s@) == Some(n as nat),
            None => octet_of(s@).is_none(),
        },
{
    if s.len() == 0 || s.len() > 3 || (s.len() > 1 && s[0] == '0') {
        return None;
    }
    if s[0] == '+' {
        assert(!text::is_digit(s@[0]));
        return None;
    }
    text::parse_u8(s)
}

fn parse_v4(s: &[char]) -> (r: Option<u32>)
    ensures
        match r {
            Some(n) => v4_of(s@) == Some(n as nat),
            None => v4_of(s@).is_none(),
        },
{
    let p = text::split_at_char(s, '.');
    let ghost parts = text::split(s@, '.');
    assert(text::slices(p@) == parts);
    assert(p@.len() == parts.len());
    if p.len() != 4 {
        return None;
    }
    assert(p@[0]@ == parts[0] && p@[1]@ == parts[1] && p@[2]@ == parts[2] && p@[3]@ == parts[3]);
    let a = parse_octet(p[0]);
    let b = parse_octet(p[1]);
    let c = parse_octet(p[2]);
    let d = parse_octet(p[3]);
    match (a, b, c, d) {
        (Some(a), Some(b), Some(c), Some(d)) => Some(
            a as u32 * 0x100_0000 + b as u32 * 0x1_0000 + c as u32 * 0x100 + d as u32,
        ),
        _ => None,
    }
}

/// The dotted quad of a number.
pub open spec fn v4_text(n: nat) -> Seq<char> {
    text::dec(n / 0x100_0000) + "."@ + text::dec(n / 0x1_0000 % 256) + "."@ + text::dec(
        n / 0x100 % 256,
    ) + "."@ + text::dec(n % 256)
}

fn push_v4(out: &mut String, n: u32)
    ensures
        final(out)@ == old(out)@ + v4_text(n as nat),
{
    text::push_dec(out, (n / 0x100_0000) as u64);
    out.append(".");
    text::push_dec(out, (n / 0x1_0000 % 256) as u64);
    out.append(".");
    text::push_dec(out, (n / 0x100 % 256) as u64);
    out.append(".");
    text::push_dec(out, (n % 256) as u64);
    assert(out@ =~= old(out)@ + v4_text(n as nat));
}

// ------------------------------------------------------------------ IPv6 text

/// One group: one to four hexadecimal digits.
pub open spec fn group_of(s: Seq<char>) -> Option<nat> {
    if 1 <= s.len() <= 4 && text::all_hex(s) {
        Some(text::value16(s))
    } else {
        None
    }
}

/// The groups of colon-separated parts; where `quad` holds, the last may be a dotted quad, which
/// counts for two.
pub open spec fn groups_of(p: Seq<Seq<char>>, quad: bool) -> Option<Seq<nat>>
    decreases p.len(),
{
    if p.len() == 0 {
        Some(seq![])
    } else {
        match (groups_of(p.drop_last(), false), group_of(p.last()), v4_of(p.last())) {
            (Some(g), Some(n), _) => Some(g.push(n)),
            (Some(g), None, Some(q)) => if quad {
                Some(g.push(q / 0x1_0000).push(q % 0x1_0000))
            } else {
                None
            },
            _ => None,
        }
    }
}

/// The groups of a text, which has none where it is empty.
pub open spec fn text_groups(s: Seq<char>, quad: bool) -> Option<Seq<nat>> {
    if s.len() == 0 {
        Some(seq![])
    } else {
        groups_of(text::split(s, ':'), quad)
    }
}

pub open spec fn zeros(k: nat) -> Seq<nat> {
    Seq::new(k, |i: int| 0)
}

/// The number groups of sixteen bits make up.
pub open spec fn groups_value(g: Seq<nat>) -> nat
    decreases g.len(),
{
    if g.len() == 0 {
        0
    } else {
        groups_value(g.drop_last()) * 0x1_0000 + g.last()
    }
}

/// The eight groups of an address, with one run of zeros written as `::`.
pub open spec fn v6_groups(s: Seq<char>) -> Option<Seq<nat>> {
    let k = text::find_text(s, "::"@);
    if k < 0 {
        match text_groups(s, true) {
            Some(g) => if g.len() == 8 {
                Some(g)
            } else {
                None
            },
            None => None,
        }
    } else {
        match (text_groups(s.take(k), false), text_groups(s.skip(k + 2), true)) {
            (Some(h), Some(t)) => if h.len() + t.len() <= 7 {
                Some(h + zeros((8 - h.len() - t.len()) as nat) + t)
            } else {
                None
            },
            _ => None,
        }
    }
}

fn parse_group(s: &[char]) -> (r: Option<u16>)
    ensures
        match r {
            Some(n) => group_of(s@) == Some(n as nat),
            None => group_of(s@).is_none(),
        },
{
    if s.len() == 0 || s.len() > 4 {
        return None;
    }
    let mut acc: u16 = 0;
    let mut i: usize = 0;
    while i < s.len()
        invariant
            i <= s@.len() <= 4,
            text::all_hex(s@.take(i as int)),
            acc == text::value16(s@.take(i as int)),
            i == 0 ==> acc == 0,
            i == 1 ==> acc < 0x10,
            i == 2 ==> acc < 0x100,
            i == 3 ==> acc < 0x1000,
        decreases s@.len() - i,
    {
        match text::hex_digit(s[i]) {
            None => {
                assert(text::hex_digit_value(s@[i as int]).is_none());
                return None;
            },
            Some(d) => {
                assert(s@.take(i + 1).drop_last() =~= s@.take(i as int));
                acc = acc * 16 + d as u16;
                i += 1;
            },
        }
    }
    assert(s@.take(i as int) =~= s@);
    Some(acc)
}

/// The groups as mathematical numbers.
pub open spec fn nats(v: Seq<u16>) -> Seq<nat> {
    Seq::new(v.len(), |i: int| v[i] as nat)
}

fn parse_groups(p: &[&[char]], quad: bool) -> (r: Option<Vec<u16>>)
    ensures
        match r {
            Some(g) => groups_of(text::slices(p@), quad) == Some(nats(g@)),
            None => groups_of(text::slices(p@), quad).is_none(),
        },
    decreases p@.len(),
{
    let n = p.len();
    let ghost parts = text::slices(p@);
    if n == 0 {
        let none: Vec<u16> = Vec::new();
        assert(nats(none@) =~= Seq::<nat>::empty());
        return Some(none);
    }
    let front = vstd::slice::slice_subrange(p, 0, n - 1);
    assert(text::slices(front@) =~= parts.drop_last());
    let last: &[char] = p[n - 1];
    assert(last@ == parts.last());
    match parse_groups(front, false) {
        None => None,
        Some(mut g) => {
            let ghost g0 = g@;
            match parse_group(last) {
                Some(x) => {
                    g.push(x);
                    assert(nats(g@) =~= nats(g0).push(x as nat));
                    Some(g)
                },
                None => match parse_v4(last) {
                    Some(q) => if quad {
                        g.push((q / 0x1_0000) as u16);
                        g.push((q % 0x1_0000) as u16);
                        assert(nats(g@) =~= nats(g0).push(q as nat / 0x1_0000).push(
                            q as nat % 0x1_0000,
                        ));
                        Some(g)
                    } else {
                        None
                    },
                    None => None,
                },
            }
        },
    }
}

fn parse_text_groups(s: &[char], quad: bool) -> (r: Option<Vec<u16>>)
    ensures
        match r {
            Some(g) => text_groups(s@, quad) == Some(nats(g@)),
            None => text_groups(s@, quad).is_none(),
        },
{
    if s.len() == 0 {
        let none: Vec<u16> = Vec::new();
        assert(nats(none@) =~= Seq::<nat>::empty());
        return Some(none);
    }
    let p = text::split_at_char(s, ':');
    parse_groups(p.as_slice(), quad)
}

fn value_of_groups(g: &Vec<u16>) -> (r: u128)
    requires
        g@.len() == 8,
    ensures
        r == groups_value(nats(g@)),
{
    let mut acc: u128 = 0;
    let mut i: usize = 0;
    let ghost all = nats(g@);
    let ghost mut bound: int = 1;
    while i < 8
        invariant
            i <= 8,
            g@.len() == 8,
            all == nats(g@),
            acc == groups_value(all.take(i as int)),
            acc < bound,
            i == 0 ==> bound == 1,
            i == 1 ==> bound == 0x1_0000,
            i == 2 ==> bound == 0x1_0000_0000,
            i == 3 ==> bound == 0x1_0000_0000_0000,
            i == 4 ==> bound == 0x1_0000_0000_0000_0000,
            i == 5 ==> bound == 0x1_0000_0000_0000_0000_0000,
            i == 6 ==> bound == 0x1_0000_0000_0000_0000_0000_0000,
            i == 7 ==> bound == 0x1_0000_0000_0000_0000_0000_0000_0000,
        decreases 8 - i,
    {
        assert(all.take(i + 1).drop_last() =~= all.take(i as int));
        acc = acc * 0x1_0000 + g[i] as u128;
        i += 1;
        proof {
            bound = bound * 0x1_0000;
        }
    }
    assert(all.take(8) =~= all);
    acc
}

/// The address a text stands for.
pub open spec fn ip_of(s: Seq<char>) -> Option<IpAddr> {
    match v4_of(s) {
        Some(n) => Some(IpAddr::V4(n as u32)),
        None => match v6_groups(s) {
            Some(g) => Some(IpAddr::V6(groups_value(g) as u128)),
            None => None,
        },
    }
}

fn parse_v6(s: &[char]) -> (r: Option<u128>)
    ensures
        match r {
            Some(n) => v6_groups(s@).is_some() && n == groups_value(v6_groups(s@).unwrap()),
            None => v6_groups(s@).is_none(),
        },
{
    proof {
        reveal_strlit("::");
    }
    match text::index_of_text(s, "::") {
        None => match parse_text_groups(s, true) {
            Some(g) => if g.len() == 8 {
                Some(value_of_groups(&g))
            } else {
                None
            },
            None => None,
        },
        Some(k) => {
            let head = parse_text_groups(text::take(s, k), false);
            let total = s.len();
            assert(k + 2 <= total);
            let tail = parse_text_groups(text::skip(s, k + 2), true);
            match (head, tail) {
                (Some(h), Some(t)) => {
                    if h.len() > 7 || t.len() > 7 || h.len() + t.len() > 7 {
                        return None;
                    }
                    let ghost want = nats(h@) + zeros((8 - h@.len() - t@.len()) as nat) + nats(t@);
                    let mut g: Vec<u16> = Vec::new();
                    let mut i: usize = 0;
                    while i < 8
                        invariant
                            i <= 8,
                            h@.len() + t@.len() <= 7,
                            g@.len() == i,
                            want == nats(h@) + zeros((8 - h@.len() - t@.len()) as nat) + nats(t@),
                            forall|j: int| 0 <= j < i ==> g@[j] as nat == want[j],
                        decreases 8 - i,
                    {
                        if i < h.len() {
                            g.push(h[i]);
                        } else if i < 8 - t.len() {
                            g.push(0);
                        } else {
                            g.push(t[i - (8 - t.len())]);
                        }
                        i += 1;
                    }
                    assert(nats(g@) =~= want);
                    Some(value_of_groups(&g))
                },
                _ => None,
            }
        },
    }
}

pub fn parse_ip_chars(s: &[char]) -> (r: Option<IpAddr>)
    ensures
        r == ip_of(s@),
{
    match parse_v4(s) {
        Some(n) => Some(IpAddr::V4(n)),
        None => match parse_v6(s) {
            Some(n) => Some(IpAddr::V6(n)),
            None => None,
        },
    }
}

pub fn parse_ip(s: &str) -> (r: Option<IpAddr>)
    ensures
        r == ip_of(s@),
{
    parse_ip_chars(text::chars_of(s).as_slice())
}

/// The eight groups of a number.
pub open spec fn groups_from(n: nat, k: nat) -> Seq<nat>
    decreases k,
{
    if k == 0 {
        seq![]
    } else {
        groups_from(n / 0x1_0000, (k - 1) as nat).push(n % 0x1_0000)
    }
}

fn split_groups(n: u128, k: usize) -> (r: Vec<u16>)
    ensures
        nats(r@) == groups_from(n as nat, k as nat),
        r@.len() == k,
    decreases k,
{
    if k == 0 {
        let none: Vec<u16> = Vec::new();
        assert(nats(none@) =~= Seq::<nat>::empty());
        none
    } else {
        let mut g = split_groups(n / 0x1_0000, k - 1);
        let ghost g0 = g@;
        g.push((n % 0x1_0000) as u16);
        assert(nats(g@) =~= nats(g0).push(n as nat % 0x1_0000));
        g
    }
}

/// How many zero groups stand from `i` on.
pub open spec fn run(g: Seq<nat>, i: int) -> nat
    decreases g.len() - i,
{
    if 0 <= i < g.len() && g[i] == 0 {
        1 + run(g, i + 1)
    } else {
        0
    }
}

/// The first place, below `k`, from which the most zero groups stand.
pub open spec fn best_run(g: Seq<nat>, k: nat) -> int
    decreases k,
{
    if k <= 1 {
        0
    } else {
        let b = best_run(g, (k - 1) as nat);
        if run(g, k - 1) > run(g, b) {
            k - 1
        } else {
            b
        }
    }
}

fn run_at(g: &Vec<u16>, i: usize) -> (r: usize)
    requires
        i <= g@.len(),
    ensures
        r == run(nats(g@), i as int),
        r <= g@.len() - i,
    decreases g@.len() - i,
{
    if i < g.len() && g[i] == 0 {
        1 + run_at(g, i + 1)
    } else {
        0
    }
}

/// The hexadecimal digits of a group, without leading zeros.
pub open spec fn group_text(n: nat) -> Seq<char>
    decreases n,
{
    if n < 16 {
        seq![text::hex_char(n)]
    } else {
        group_text(n / 16).push(text::hex_char(n % 16))
    }
}

fn push_group(out: &mut String, n: u16)
    ensures
        final(out)@ == old(out)@ + group_text(n as nat),
    decreases n,
{
    if n >= 16 {
        push_group(out, n / 16);
    }
    out.push(text::hex_char_of((n % 16) as u8));
    assert(out@ =~= old(out)@ + group_text(n as nat));
}

/// Groups `i` to `j`, colons between them.
pub open spec fn groups_text(g: Seq<nat>, i: int, j: int) -> Seq<char>
    decreases j - i,
{
    if i >= j {
        seq![]
    } else if j - i == 1 {
        group_text(g[i])
    } else {
        groups_text(g, i, j - 1) + ":"@ + group_text(g[j - 1])
    }
}

fn push_groups(out: &mut String, g: &Vec<u16>, i: usize, j: usize)
    requires
        j <= g@.len(),
    ensures
        final(out)@ == old(out)@ + groups_text(nats(g@), i as int, j as int),
    decreases j,
{
    if i < j {
        if j - i == 1 {
            push_group(out, g[i]);
        } else {
            push_groups(out, g, i, j - 1);
            out.append(":");
            push_group(out, g[j - 1]);
        }
    }
    assert(out@ =~= old(out)@ + groups_text(nats(g@), i as int, j as int));
}

/// The shortest text of an address: lower-case groups, the first of the longest runs of at least
/// two zero groups written as `::`, and the last 32 bits of a mapped IPv4 address as a dotted quad.
pub open spec fn v6_text(n: nat) -> Seq<char> {
    let g = groups_from(n, 8);
    let b = best_run(g, 8);
    if n / 0x1_0000_0000 == 0xffff {
        "::ffff:"@ + v4_text(n % 0x1_0000_0000)
    } else if run(g, b) > 1 {
        groups_text(g, 0, b) + "::"@ + groups_text(g, b + run(g, b) as int, 8)
    } else {
        groups_text(g, 0, 8)
    }
}

fn push_v6(out: &mut String, n: u128)
    ensures
        final(out)@ == old(out)@ + v6_text(n as nat),
{
    if n / 0x1_0000_0000 == 0xffff {
        out.append("::ffff:");
        push_v4(out, (n % 0x1_0000_0000) as u32);
        assert(out@ =~= old(out)@ + v6_text(n as nat));
        return;
    }
    let g = split_groups(n, 8);
    let ghost gs = nats(g@);
    let mut b: usize = 0;
    let mut i: usize = 1;
    while i < 8
        invariant
            1 <= i <= 8,
            b < 8,
            g@.len() == 8,
            gs == nats(g@),
            b == best_run(gs, i as nat),
        decreases 8 - i,
    {
        if run_at(&g, i) > run_at(&g, b) {
            b = i;
        }
        i += 1;
    }
    let len = run_at(&g, b);
    if len > 1 {
        push_groups(out, &g, 0, b);
        out.append("::");
        push_groups(out, &g, b + len, 8);
    } else {
        push_groups(out, &g, 0, 8);
    }
    assert(out@ =~= old(out)@ + v6_text(n as nat));
}

pub open spec fn ip_text(ip: IpAddr) -> Seq<char> {
    match ip {
        IpAddr::V4(n) => v4_text(n as nat),
        IpAddr::V6(n) => v6_text(n as nat),
    }
}

pub fn push_ip(out: &mut String, ip: IpAddr)
    ensures
        final(out)@ == old(out)@ + ip_text(ip),
{
    match ip {
        IpAddr::V4(n) => push_v4(out, n),
        IpAddr::V6(n) => push_v6(out, n),
    }
}

pub fn ip_string(ip: IpAddr) -> (r: String)
    ensures
        r@ == ip_text(ip),
{
    let mut out = String::new();
    push_ip(&mut out, ip);
    assert(out@ =~= ip_text(ip));
    out
}

// ------------------------------------------------------------------ sockets

/// A port: decimal digits.
pub open spec fn port_of(s: Seq<char>) -> Option<nat> {
    text::digits_number(s, 65535)
}

fn parse_port(s: &[char]) -> (r: Option<u16>)
    ensures
        text::opt_nat_u16(r) == port_of(s@),
{
    if s.len() > 0 && s[0] == '+' {
        assert(!text::is_digit(s@[0]));
        return None;
    }
    text::parse_u16(s)
}

/// An IPv6 address and its scope, a number behind a percent sign.
pub open spec fn scoped(s: Seq<char>) -> Option<(Seq<char>, nat)> {
    match text::split_once(s, '%') {
        None => Some((s, 0)),
        Some((a, scope)) => match text::digits_number(scope, 0xffff_ffff) {
            Some(n) => Some((a, n)),
            None => None,
        },
    }
}

/// The socket address a text stands for: `a.b.c.d:port`, `[v6]:port` or `[v6%scope]:port`.
pub open spec fn socket_of(s: Seq<char>) -> Option<SocketAddr> {
    match text::rsplit_once(s, ':') {
        None => None,
        Some((host, port)) => match port_of(port) {
            None => None,
            Some(port) => if host.len() >= 2 && host[0] == '[' && host.last() == ']' {
                match scoped(host.subrange(1, host.len() - 1)) {
                    Some((a, scope)) => match v6_groups(a) {
                        Some(g) => Some(
                            SocketAddr {
                                ip: IpAddr::V6(groups_value(g) as u128),
                                port: port as u16,
                                scope: scope as u32,
                            },
                        ),
                        None => None,
                    },
                    None => None,
                }
            } else {
                match v4_of(host) {
                    Some(n) => Some(
                        SocketAddr { ip: IpAddr::V4(n as u32), port: port as u16, scope: 0 },
                    ),
                    None => None,
                }
            },
        },
    }
}

pub fn parse_socket(s: &str) -> (r: Option<SocketAddr>)
    ensures
        r == socket_of(s@),
        r matches Some(a) ==> a.wf(),
{
    let c = text::chars_of(s);
    match text::cut_last(c.as_slice(), ':') {
        None => None,
        Some((host, port)) => match parse_port(port) {
            None => None,
            Some(port) => if host.len() >= 2 && host[0] == '[' && host[host.len() - 1] == ']' {
                let inner = vstd::slice::slice_subrange(host, 1, host.len() - 1);
                let (addr, scope): (&[char], u32) = match text::cut(inner, '%') {
                    None => (inner, 0),
                    Some((a, scope)) => {
                        if scope.len() > 0 && scope[0] == '+' {
                            assert(!text::is_digit(scope@[0]));
                            return None;
                        }
                        match text::parse_u32(scope) {
                            Some(n) => (a, n),
                            None => {
                                return None;
                            },
                        }
                    },
                };
                match parse_v6(addr) {
                    Some(n) => Some(SocketAddr { ip: IpAddr::V6(n), port, scope }),
                    None => None,
                }
            } else {
                match parse_v4(host) {
                    Some(n) => Some(SocketAddr { ip: IpAddr::V4(n), port, scope: 0 }),
                    None => None,
                }
            },
        },
    }
}

/// The text of a socket address.
pub open spec fn socket_text(a: SocketAddr) -> Seq<char> {
    match a.ip {
        IpAddr::V4(n) => v4_text(n as nat) + ":"@ + text::dec(a.port as nat),
        IpAddr::V6(n) => "["@ + v6_text(n as nat) + (if a.scope == 0 {
            seq![]
        } else {
            "%"@ + text::dec(a.scope as nat)
        }) + "]:"@ + text::dec(a.port as nat),
    }
}

pub fn socket_string(a: SocketAddr) -> (r: String)
    ensures
        r@ == socket_text(a),
{
    let mut out = String::new();
    match a.ip {
        IpAddr::V4(n) => {
            push_v4(&mut out, n);
            out.append(":");
        },
        IpAddr::V6(n) => {
            out.append("[");
            push_v6(&mut out, n);
            if a.scope != 0 {
                out.append("%");
                text::push_dec(&mut out, a.scope as u64);
            }
            out.append("]:");
        },
    }
    text::push_dec(&mut out, a.port as u64);
    assert(out@ =~= socket_text(a));
    out
}


// ------------------------------------------------------------------ laws

proof fn lemma_octet(n: nat)
    requires
        n <= 255,
    ensures
        octet_of(text::dec(n)) == Some(n),
        !text::dec(n).contains('.'),
        !text::dec(n).contains(':'),
        1 <= text::dec(n).len() <= 3,
{
    let d = text::dec(n);
    text::lemma_dec_reads_back(n);
    if n >= 10 {
        assert(text::dec(n / 10).len() <= 2) by {
            if n / 10 >= 10 {
                assert(text::dec(n / 10 / 10).len() == 1);
            }
        }
        assert(d[0] == text::dec(n / 10)[0]);
        if n / 10 >= 10 {
            assert(text::dec(n / 10)[0] == text::dec(n / 10 / 10)[0]);
        }
    }
    assert forall|i: int| 0 <= i < d.len() implies d[i] != '.' && d[i] != ':' by {
        assert(text::is_digit(d[i]));
    }
}

spec fn octets(n: nat) -> Seq<Seq<char>> {
    seq![
        text::dec(n / 0x100_0000),
        text::dec(n / 0x1_0000 % 256),
        text::dec(n / 0x100 % 256),
        text::dec(n % 256),
    ]
}

proof fn lemma_v4_parts(n: nat)
    requires
        n < 0x1_0000_0000,
    ensures
        text::split(v4_text(n), '.') == octets(n),
        7 <= v4_text(n).len(),
        !v4_text(n).contains(':'),
        v4_text(n)[text::dec(n / 0x100_0000).len() as int] == '.',
{
    let p = octets(n);
    let a = p[0];
    let b = p[1];
    let c = p[2];
    let d = p[3];
    lemma_octet(n / 0x100_0000);
    lemma_octet(n / 0x1_0000 % 256);
    lemma_octet(n / 0x100 % 256);
    lemma_octet(n % 256);
    reveal_strlit(".");
    assert("."@ =~= seq!['.']);
    let dot = seq!['.'];
    assert(p.drop_last() =~= seq![a, b, c]);
    assert(p.drop_last().drop_last() =~= seq![a, b]);
    assert(p.drop_last().drop_last().drop_last() =~= seq![a]);
    assert(text::join(seq![a], dot) == a);
    assert(text::join(seq![a, b], dot) == a + dot + b);
    assert(text::join(seq![a, b, c], dot) == a + dot + b + dot + c);
    assert(text::join(p, dot) == a + dot + b + dot + c + dot + d);
    assert forall|i: int| 0 <= i < p.len() implies !(#[trigger] p[i]).contains('.') by {
        assert(i == 0 || i == 1 || i == 2 || i == 3);
    }
    text::law_join_splits_back(p, '.');
    text::lemma_contains_concat(a, dot, ':');
    text::lemma_contains_concat(a + dot, b, ':');
    text::lemma_contains_concat(a + dot + b, dot, ':');
    text::lemma_contains_concat(a + dot + b + dot, c, ':');
    text::lemma_contains_concat(a + dot + b + dot + c, dot, ':');
    text::lemma_contains_concat(a + dot + b + dot + c + dot, d, ':');
    assert(!dot.contains(':'));
}

proof fn lemma_v4_value(n: nat)
    requires
        n < 0x1_0000_0000,
    ensures
        n / 0x100_0000 <= 255,
        n / 0x100_0000 * 0x100_0000 + n / 0x1_0000 % 256 * 0x1_0000 + n / 0x100 % 256 * 0x100 + n
            % 256 == n,
{
    assert(n / 0x1_0000 == n / 0x100_0000 * 256 + n / 0x1_0000 % 256);
    assert(n / 0x100 == n / 0x1_0000 * 256 + n / 0x100 % 256);
    assert(n == n / 0x100 * 256 + n % 256);
}

proof fn lemma_v4_read(n: nat)
    requires
        n < 0x1_0000_0000,
    ensures
        v4_of(v4_text(n)) == Some(n),
{
    lemma_v4_value(n);
    lemma_v4_parts(n);
    lemma_octet(n / 0x100_0000);
    lemma_octet(n / 0x1_0000 % 256);
    lemma_octet(n / 0x100 % 256);
    lemma_octet(n % 256);
}

proof fn lemma_hex_char(n: nat)
    requires
        n < 16,
    ensures
        text::hex_digit_value(text::hex_char(n)) == Some(n),
        text::hex_char(n) != ':',
        text::hex_char(n) != '.',
        text::hex_char(n) != '%',
        !text::is_space(text::hex_char(n)),
        text::hex_char(n) != '/',
{
}

/// A text of hexadecimal digits.
spec fn hexadecimal(s: Seq<char>) -> bool {
    &&& s.len() > 0
    &&& text::all_hex(s)
    &&& forall|i: int|
        0 <= i < s.len() ==> (#[trigger] s[i]) != ':' && s[i] != '.' && s[i] != '%' && s[i] != '/'
            && !text::is_space(s[i])
}

proof fn lemma_group(n: nat)
    ensures
        hexadecimal(group_text(n)),
        text::value16(group_text(n)) == n,
        n < 0x10 ==> group_text(n).len() == 1,
        n < 0x100 ==> group_text(n).len() <= 2,
        n < 0x1000 ==> group_text(n).len() <= 3,
        n < 0x1_0000 ==> group_text(n).len() <= 4,
    decreases n,
{
    let s = group_text(n);
    if n < 16 {
        lemma_hex_char(n);
        assert(s.drop_last() =~= seq![]);
        assert(text::value16(s.drop_last()) == 0);
    } else {
        lemma_group(n / 16);
        lemma_hex_char(n % 16);
        let front = group_text(n / 16);
        assert(s.drop_last() =~= front);
        assert forall|i: int| 0 <= i < s.len() implies text::hex_digit_value(
            #[trigger] s[i],
        ).is_some() && s[i] != ':' && s[i] != '.' && s[i] != '%' && s[i] != '/' && !text::is_space(
            s[i],
        ) by {
            if i < front.len() {
                assert(s[i] == front[i]);
                assert(text::hex_digit_value(front[i]).is_some());
            }
        }
    }
}

spec fn group_parts(g: Seq<nat>) -> Seq<Seq<char>> {
    Seq::new(g.len(), |i: int| group_text(g[i]))
}

proof fn lemma_groups_joined(g: Seq<nat>, i: int, j: int)
    requires
        0 <= i < j <= g.len(),
    ensures
        groups_text(g, i, j) == text::join(group_parts(g.subrange(i, j)), seq![':']),
    decreases j - i,
{
    let sub = g.subrange(i, j);
    reveal_strlit(":");
    assert(":"@ =~= seq![':']);
    if j - i > 1 {
        lemma_groups_joined(g, i, j - 1);
        assert(sub.drop_last() =~= g.subrange(i, j - 1));
        assert(group_parts(sub).drop_last() =~= group_parts(sub.drop_last()));
        assert(group_parts(sub).last() == group_text(g[j - 1]));
    } else {
        assert(group_parts(sub)[0] == group_text(g[i]));
    }
}

proof fn lemma_groups_of(g: Seq<nat>, quad: bool)
    requires
        forall|i: int| 0 <= i < g.len() ==> (#[trigger] g[i]) < 0x1_0000,
    ensures
        groups_of(group_parts(g), quad) == Some(g),
    decreases g.len(),
{
    if g.len() == 0 {
        assert(groups_of(group_parts(g), quad)->Some_0 =~= g);
    } else {
        let front = g.drop_last();
        assert forall|i: int| 0 <= i < front.len() implies (#[trigger] front[i]) < 0x1_0000 by {
            assert(front[i] == g[i]);
        }
        lemma_groups_of(front, false);
        assert(group_parts(g).drop_last() =~= group_parts(front));
        assert(g[g.len() - 1] < 0x1_0000);
        lemma_group(g.last());
        assert(front.push(g.last()) =~= g);
    }
}

/// A text without white space and without characters that stand around an address, in which no two
/// colons stand side by side, nor one at either end.
spec fn spaced(s: Seq<char>) -> bool {
    &&& s.len() > 0 ==> s[0] != ':' && s.last() != ':'
    &&& forall|i: int| 0 <= i < s.len() - 1 ==> !((#[trigger] s[i]) == ':' && s[i + 1] == ':')
    &&& forall|i: int|
        0 <= i < s.len() ==> (#[trigger] s[i]) != '.' && s[i] != '%' && s[i] != '/'
            && !text::is_space(s[i])
}

proof fn lemma_groups_spaced(g: Seq<nat>, i: int, j: int)
    requires
        0 <= i <= j <= g.len(),
    ensures
        spaced(groups_text(g, i, j)),
        i < j ==> groups_text(g, i, j).len() > 0,
    decreases j - i,
{
    reveal_strlit(":");
    assert(!text::is_space(':'));
    if j - i == 1 {
        lemma_group(g[i]);
        let s = groups_text(g, i, j);
        assert(s[s.len() - 1] != ':');
    } else if j - i > 1 {
        lemma_groups_spaced(g, i, j - 1);
        lemma_group(g[j - 1]);
        let a = groups_text(g, i, j - 1);
        let b = group_text(g[j - 1]);
        let s = groups_text(g, i, j);
        assert(s =~= a + seq![':'] + b);
        assert(a[a.len() - 1] != ':');
        assert(b[0] != ':' && b[b.len() - 1] != ':');
        assert forall|k: int| 0 <= k < s.len() - 1 implies !((#[trigger] s[k]) == ':' && s[k + 1]
            == ':') by {
            if k < a.len() - 1 {
                assert(s[k] == a[k] && s[k + 1] == a[k + 1]);
            } else if k == a.len() - 1 {
                assert(s[k] == a[k]);
            } else if k == a.len() {
                assert(s[k + 1] == b[0]);
            } else {
                assert(s[k] == b[k - a.len() - 1]);
            }
        }
        assert forall|k: int| 0 <= k < s.len() implies (#[trigger] s[k]) != '.' && s[k] != '%'
            && s[k] != '/' && !text::is_space(s[k]) by {
            if k < a.len() {
                assert(s[k] == a[k]);
            } else if k > a.len() {
                assert(s[k] == b[k - a.len() - 1]);
            }
        }
        assert(s[0] == a[0]);
        assert(s.last() == b.last());
    }
}

proof fn lemma_text_groups(g: Seq<nat>, i: int, j: int, quad: bool)
    requires
        0 <= i <= j <= g.len(),
        forall|k: int| 0 <= k < g.len() ==> (#[trigger] g[k]) < 0x1_0000,
    ensures
        text_groups(groups_text(g, i, j), quad) == Some(g.subrange(i, j)),
{
    let sub = g.subrange(i, j);
    if i == j {
        assert(sub =~= seq![]);
    } else {
        lemma_groups_joined(g, i, j);
        lemma_groups_spaced(g, i, j);
        let parts = group_parts(sub);
        assert forall|k: int| 0 <= k < parts.len() implies !(#[trigger] parts[k]).contains(':') by {
            lemma_group(sub[k]);
        }
        text::law_join_splits_back(parts, ':');
        assert forall|k: int| 0 <= k < sub.len() implies (#[trigger] sub[k]) < 0x1_0000 by {
            assert(sub[k] == g[i + k]);
        }
        lemma_groups_of(sub, quad);
    }
}

proof fn lemma_no_double_colon(s: Seq<char>)
    requires
        forall|i: int| 0 <= i < s.len() - 1 ==> !((#[trigger] s[i]) == ':' && s[i + 1] == ':'),
    ensures
        text::find_text(s, "::"@) == -1,
    decreases s.len(),
{
    reveal_strlit("::");
    if text::has_prefix(s, "::"@) {
        assert(s.take(2)[0] == ':' && s.take(2)[1] == ':');
        assert(s[0] == ':' && s[1] == ':');
    }
    if s.len() > 0 {
        let t = s.skip(1);
        assert forall|i: int| 0 <= i < t.len() - 1 implies !((#[trigger] t[i]) == ':' && t[i + 1]
            == ':') by {
            assert(t[i] == s[i + 1] && t[i + 1] == s[i + 2]);
        }
        lemma_no_double_colon(t);
    }
}

proof fn lemma_double_colon_at(a: Seq<char>, b: Seq<char>)
    requires
        forall|i: int| 0 <= i < a.len() - 1 ==> !((#[trigger] a[i]) == ':' && a[i + 1] == ':'),
        a.len() > 0 ==> a.last() != ':',
    ensures
        text::find_text(a + "::"@ + b, "::"@) == a.len(),
    decreases a.len(),
{
    reveal_strlit("::");
    let s = a + "::"@ + b;
    if a.len() == 0 {
        assert(s.take(2) =~= "::"@);
    } else {
        let t = a.skip(1);
        assert(s.skip(1) =~= t + "::"@ + b);
        assert forall|i: int| 0 <= i < t.len() - 1 implies !((#[trigger] t[i]) == ':' && t[i + 1]
            == ':') by {
            assert(t[i] == a[i + 1] && t[i + 1] == a[i + 2]);
        }
        lemma_double_colon_at(t, b);
        if text::has_prefix(s, "::"@) {
            assert(s.take(2)[0] == ':' && s.take(2)[1] == ':');
            assert(s[0] == a[0]);
            if a.len() > 1 {
                assert(s[1] == a[1]);
            }
        }
    }
}

spec fn ceiling(k: nat) -> nat
    decreases k,
{
    if k == 0 {
        1
    } else {
        0x1_0000 * ceiling((k - 1) as nat)
    }
}

proof fn lemma_groups_from(n: nat, k: nat)
    requires
        n < ceiling(k),
    ensures
        groups_from(n, k).len() == k,
        forall|i: int| 0 <= i < k ==> (#[trigger] groups_from(n, k)[i]) < 0x1_0000,
        groups_value(groups_from(n, k)) == n,
    decreases k,
{
    if k > 0 {
        let front = groups_from(n / 0x1_0000, (k - 1) as nat);
        assert(n / 0x1_0000 < ceiling((k - 1) as nat));
        lemma_groups_from(n / 0x1_0000, (k - 1) as nat);
        let g = groups_from(n, k);
        assert(g.drop_last() =~= front);
        assert forall|i: int| 0 <= i < k implies (#[trigger] g[i]) < 0x1_0000 by {
            if i < k - 1 {
                assert(g[i] == front[i]);
            }
        }
    }
}

proof fn lemma_run(g: Seq<nat>, i: int)
    requires
        0 <= i <= g.len(),
    ensures
        i + run(g, i) <= g.len(),
        forall|j: int| i <= j < i + run(g, i) ==> (#[trigger] g[j]) == 0,
    decreases g.len() - i,
{
    if i < g.len() && g[i] == 0 {
        lemma_run(g, i + 1);
    }
}

proof fn lemma_best_run(g: Seq<nat>, k: nat)
    requires
        k <= g.len(),
    ensures
        0 <= best_run(g, k),
        k > 0 ==> best_run(g, k) < k,
    decreases k,
{
    if k > 1 {
        lemma_best_run(g, (k - 1) as nat);
    }
}

proof fn lemma_value_of_zeros(k: nat, t: Seq<nat>)
    ensures
        groups_value(zeros(k) + t) == groups_value(t),
    decreases k + t.len(),
{
    let s = zeros(k) + t;
    if t.len() > 0 {
        assert(s.drop_last() =~= zeros(k) + t.drop_last());
        lemma_value_of_zeros(k, t.drop_last());
    } else if k > 0 {
        assert(s.drop_last() =~= zeros((k - 1) as nat) + t);
        assert(s.last() == 0);
        lemma_value_of_zeros((k - 1) as nat, t);
    } else {
        assert(s =~= t);
    }
}

proof fn lemma_all_ones()
    ensures
        group_of(seq!['f', 'f', 'f', 'f']) == Some(0xffffnat),
        !seq!['f', 'f', 'f', 'f'].contains(':'),
{
    let f = seq!['f', 'f', 'f', 'f'];
    assert(f.drop_last() =~= seq!['f', 'f', 'f']);
    assert(seq!['f', 'f', 'f'].drop_last() =~= seq!['f', 'f']);
    assert(seq!['f', 'f'].drop_last() =~= seq!['f']);
    assert(seq!['f'].drop_last() =~= seq![]);
    assert(text::value16(Seq::<char>::empty()) == 0);
    assert(text::value16(seq!['f']) == 0xf);
    assert(text::value16(seq!['f', 'f']) == 0xff);
    assert(text::value16(seq!['f', 'f', 'f']) == 0xfff);
    assert(text::value16(f) == 0xffff);
}

/// The groups of an IPv4 address in IPv6 notation.
spec fn mapped_groups(q: nat) -> Seq<nat> {
    Seq::<nat>::empty().push(0xffff).push(q / 0x1_0000).push(q % 0x1_0000)
}

proof fn lemma_mapped_value(q: nat)
    requires
        q < 0x1_0000_0000,
    ensures
        groups_value(zeros(5) + mapped_groups(q)) == 0xffff * 0x1_0000_0000 + q,
{
    let g = mapped_groups(q);
    let nothing = Seq::<nat>::empty();
    lemma_value_of_zeros(5, g);
    assert(g.drop_last() =~= nothing.push(0xffff).push(q / 0x1_0000));
    assert(g.drop_last().drop_last() =~= nothing.push(0xffff));
    assert(g.drop_last().drop_last().drop_last() =~= nothing);
    assert(groups_value(nothing) == 0);
    assert(groups_value(nothing.push(0xffff)) == 0xffff);
    assert(groups_value(nothing.push(0xffff).push(q / 0x1_0000)) == 0xffff * 0x1_0000 + q
        / 0x1_0000);
}

proof fn lemma_mapped_tail(q: nat)
    requires
        q < 0x1_0000_0000,
    ensures
        text_groups(seq!['f', 'f', 'f', 'f'] + seq![':'] + v4_text(q), true) == Some(
            mapped_groups(q),
        ),
{
    let v = v4_text(q);
    let f = seq!['f', 'f', 'f', 'f'];
    let t = f + seq![':'] + v;
    lemma_v4_parts(q);
    lemma_v4_read(q);
    lemma_all_ones();
    let parts = seq![f, v];
    assert(parts.drop_last() =~= seq![f]);
    assert(text::join(seq![f], seq![':']) == f);
    assert(text::join(parts, seq![':']) == t);
    assert forall|i: int| 0 <= i < parts.len() implies !(#[trigger] parts[i]).contains(':') by {
        assert(i == 0 || i == 1);
    }
    text::law_join_splits_back(parts, ':');
    assert(group_of(v).is_none());
    let nothing = Seq::<nat>::empty();
    assert(seq![f].drop_last() =~= Seq::<Seq<char>>::empty());
    assert(groups_of(Seq::<Seq<char>>::empty(), false) == Some(nothing));
    assert(groups_of(seq![f], false) == Some(nothing.push(0xffff)));
    assert(groups_of(parts, true) == Some(mapped_groups(q)));
}

/// An IPv4 address in IPv6 notation.
proof fn lemma_mapped_read(q: nat)
    requires
        q < 0x1_0000_0000,
    ensures
        v6_groups("::ffff:"@ + v4_text(q)) matches Some(g) && groups_value(g) == 0xffff
            * 0x1_0000_0000 + q,
{
    let s = "::ffff:"@ + v4_text(q);
    let none = Seq::<char>::empty();
    let t = seq!['f', 'f', 'f', 'f'] + seq![':'] + v4_text(q);
    assert(s =~= none + "::"@ + t && s.take(0) =~= none && s.skip(2) =~= t) by {
        reveal_strlit("::ffff:");
        reveal_strlit("::");
    }
    lemma_double_colon_at(none, t);
    lemma_mapped_tail(q);
    lemma_mapped_value(q);
    let all = Seq::<nat>::empty() + zeros(5) + mapped_groups(q);
    assert(text_groups(s.take(0), false) == Some(Seq::<nat>::empty()));
    assert(mapped_groups(q).len() == 3);
    assert(v6_groups(s) == Some(all));
    assert(all =~= zeros(5) + mapped_groups(q));
}

proof fn lemma_v6_read(n: nat)
    requires
        n < ceiling(8),
    ensures
        v6_groups(v6_text(n)) matches Some(g) && groups_value(g) == n,
{
    let g = groups_from(n, 8);
    let b = best_run(g, 8);
    let r = run(g, b) as int;
    lemma_groups_from(n, 8);
    if n / 0x1_0000_0000 == 0xffff {
        lemma_mapped_read(n % 0x1_0000_0000);
    } else if run(g, b) > 1 {
        lemma_best_run(g, 8);
        lemma_run(g, b);
        let h = groups_text(g, 0, b);
        let t = groups_text(g, b + r, 8);
        let s = v6_text(n);
        lemma_groups_spaced(g, 0, b);
        lemma_double_colon_at(h, t);
        reveal_strlit("::");
        assert(s.take(h.len() as int) =~= h);
        assert(s.skip(h.len() as int + 2) =~= t);
        lemma_text_groups(g, 0, b, false);
        lemma_text_groups(g, b + r, 8, true);
        let all = g.subrange(0, b) + zeros(r as nat) + g.subrange(b + r, 8);
        assert(all =~= g) by {
            assert forall|i: int| 0 <= i < 8 implies all[i] == g[i] by {
                if b <= i < b + r {
                    assert(g[i] == 0);
                }
            }
        }
        assert(8 - g.subrange(0, b).len() - g.subrange(b + r, 8).len() == r);
    } else {
        lemma_groups_spaced(g, 0, 8);
        lemma_no_double_colon(groups_text(g, 0, 8));
        lemma_text_groups(g, 0, 8, true);
        assert(g.subrange(0, 8) =~= g);
    }
}

proof fn lemma_ceiling()
    ensures
        ceiling(8) == 0x1_0000_0000_0000_0000_0000_0000_0000_0000,
{
    assert(ceiling(0) == 1);
    assert(ceiling(1) == 0x1_0000);
    assert(ceiling(2) == 0x1_0000_0000);
    assert(ceiling(3) == 0x1_0000_0000_0000);
    assert(ceiling(4) == 0x1_0000_0000_0000_0000);
    assert(ceiling(5) == 0x1_0000_0000_0000_0000_0000);
    assert(ceiling(6) == 0x1_0000_0000_0000_0000_0000_0000);
    assert(ceiling(7) == 0x1_0000_0000_0000_0000_0000_0000_0000);
}

/// An IPv6 address is not taken for an IPv4 address.
proof fn lemma_v6_is_not_v4(n: nat)
    requires
        n < ceiling(8),
    ensures
        v4_of(v6_text(n)).is_none(),
{
    let g = groups_from(n, 8);
    let b = best_run(g, 8);
    let s = v6_text(n);
    lemma_groups_from(n, 8);
    lemma_best_run(g, 8);
    lemma_run(g, b);
    if n / 0x1_0000_0000 == 0xffff {
        let q = n % 0x1_0000_0000;
        lemma_v4_parts(q);
        reveal_strlit("::ffff:");
        reveal_strlit(".");
        let d = text::dec(q / 0x100_0000);
        let first = "::ffff:"@ + d;
        // The first part, up to the first dot, starts with a colon.
        text::lemma_find(s, '.');
        text::lemma_find(v4_text(q), '.');
        let k = text::find(s, '.');
        assert(s[0] == ':');
        assert(s[7 + d.len() as int] == '.') by {
            assert(s[7 + d.len() as int] == v4_text(q)[d.len() as int]);
        }
        assert(0 < k < s.len());
        assert(s.take(k)[0] == ':');
        assert(text::split(s, '.')[0] == s.take(k));
        assert(!text::is_digit(s.take(k)[0]));
    } else {
        reveal_strlit("::");
        if run(g, b) > 1 {
            lemma_groups_spaced(g, 0, b);
            lemma_groups_spaced(g, b + run(g, b) as int, 8);
        } else {
            lemma_groups_spaced(g, 0, 8);
        }
        assert(!s.contains('.'));
        text::lemma_split_once_none(s, '.');
        assert(text::split(s, '.') =~= seq![s]);
    }
}

/// An address is read back as it was written.
pub proof fn law_an_address_reads_back(ip: IpAddr)
    ensures
        ip_of(ip_text(ip)) == Some(ip),
{
    match ip {
        IpAddr::V4(n) => {
            lemma_v4_read(n as nat);
        },
        IpAddr::V6(n) => {
            lemma_ceiling();
            lemma_v6_is_not_v4(n as nat);
            lemma_v6_read(n as nat);
        },
    }
}

proof fn lemma_v4_plain(n: nat, c: char)
    requires
        n < 0x1_0000_0000,
        c != '.',
        !text::is_digit(c),
    ensures
        !v4_text(n).contains(c),
{
    reveal_strlit(".");
    let a = text::dec(n / 0x100_0000);
    let b = text::dec(n / 0x1_0000 % 256);
    let d = text::dec(n / 0x100 % 256);
    let e = text::dec(n % 256);
    text::lemma_dec_reads_back(n / 0x100_0000);
    text::lemma_dec_reads_back(n / 0x1_0000 % 256);
    text::lemma_dec_reads_back(n / 0x100 % 256);
    text::lemma_dec_reads_back(n % 256);
    text::lemma_contains_concat(a, "."@, c);
    text::lemma_contains_concat(a + "."@, b, c);
    text::lemma_contains_concat(a + "."@ + b, "."@, c);
    text::lemma_contains_concat(a + "."@ + b + "."@, d, c);
    text::lemma_contains_concat(a + "."@ + b + "."@ + d, "."@, c);
    text::lemma_contains_concat(a + "."@ + b + "."@ + d + "."@, e, c);
    assert(!"."@.contains(c));
    assert(!a.contains(c) && !b.contains(c) && !d.contains(c) && !e.contains(c)) by {
        assert(forall|i: int| 0 <= i < a.len() ==> text::is_digit(#[trigger] a[i]));
        assert(forall|i: int| 0 <= i < b.len() ==> text::is_digit(#[trigger] b[i]));
        assert(forall|i: int| 0 <= i < d.len() ==> text::is_digit(#[trigger] d[i]));
        assert(forall|i: int| 0 <= i < e.len() ==> text::is_digit(#[trigger] e[i]));
    }
}

proof fn lemma_v6_plain(n: nat, c: char)
    requires
        n < ceiling(8),
        c == '%' || c == '/' || text::is_space(c),
    ensures
        !v6_text(n).contains(c),
{
    let g = groups_from(n, 8);
    let b = best_run(g, 8);
    let s = v6_text(n);
    lemma_groups_from(n, 8);
    lemma_best_run(g, 8);
    lemma_run(g, b);
    reveal_strlit("::");
    reveal_strlit("::ffff:");
    assert(!text::is_digit(c) && c != '.' && c != ':' && c != 'f') by {
        lemma_around(c);
    }
    if n / 0x1_0000_0000 == 0xffff {
        lemma_v4_plain(n % 0x1_0000_0000, c);
        text::lemma_contains_concat("::ffff:"@, v4_text(n % 0x1_0000_0000), c);
        assert(!"::ffff:"@.contains(c));
    } else if run(g, b) > 1 {
        let h = groups_text(g, 0, b);
        let t = groups_text(g, b + run(g, b) as int, 8);
        lemma_groups_spaced(g, 0, b);
        lemma_groups_spaced(g, b + run(g, b) as int, 8);
        text::lemma_contains_concat(h, "::"@, c);
        text::lemma_contains_concat(h + "::"@, t, c);
        assert(!"::"@.contains(c));
        assert(!h.contains(c));
        assert(!t.contains(c));
    } else {
        lemma_groups_spaced(g, 0, 8);
    }
}

proof fn lemma_around(c: char)
    requires
        c == '%' || c == '/' || text::is_space(c),
    ensures
        !text::is_digit(c),
        c != '.',
        c != ':',
        c != 'f',
{
}

/// No white space and no slash stands in an address.
pub proof fn lemma_address_plain(ip: IpAddr, c: char)
    requires
        c == '/' || text::is_space(c),
    ensures
        !ip_text(ip).contains(c),
        ip_text(ip).len() > 0,
{
    lemma_around(c);
    match ip {
        IpAddr::V4(n) => {
            lemma_v4_plain(n as nat, c);
            lemma_v4_parts(n as nat);
        },
        IpAddr::V6(n) => {
            lemma_ceiling();
            lemma_v6_plain(n as nat, c);
            reveal_strlit("::");
            reveal_strlit("::ffff:");
            lemma_groups_from(n as nat, 8);
            lemma_groups_spaced(groups_from(n as nat, 8), 0, 8);
        },
    }
}

/// A socket address is read back as it was written.
pub proof fn law_a_socket_address_reads_back(a: SocketAddr)
    requires
        a.wf(),
    ensures
        socket_of(socket_text(a)) == Some(a),
{
    let d = text::dec(a.port as nat);
    text::lemma_dec_reads_back(a.port as nat);
    assert(!d.contains(':')) by {
        if d.contains(':') {
            let i = choose|i: int| 0 <= i < d.len() && d[i] == ':';
            assert(text::is_digit(d[i]));
        }
    }
    reveal_strlit(":");
    reveal_strlit("[");
    reveal_strlit("]:");
    let s = socket_text(a);
    match a.ip {
        IpAddr::V4(n) => {
            let h = v4_text(n as nat);
            assert(s =~= h + seq![':'] + d);
            text::lemma_rsplit_once_at(h, d, ':');
            lemma_v4_read(n as nat);
            lemma_v4_plain(n as nat, '[');
            lemma_v4_parts(n as nat);
            assert(h.contains(h[0]));
        },
        IpAddr::V6(n) => {
            let t = v6_text(n as nat);
            lemma_ceiling();
            lemma_v6_plain(n as nat, '%');
            lemma_v6_read(n as nat);
            if a.scope == 0 {
                let h = seq!['['] + t + seq![']'];
                assert(s =~= h + seq![':'] + d);
                text::lemma_rsplit_once_at(h, d, ':');
                assert(h.subrange(1, h.len() - 1) =~= t);
                text::lemma_split_once_none(t, '%');
            } else {
                let z = text::dec(a.scope as nat);
                reveal_strlit("%");
                text::lemma_dec_reads_back(a.scope as nat);
                let inner = t + seq!['%'] + z;
                let h = seq!['['] + inner + seq![']'];
                assert(s =~= h + seq![':'] + d);
                text::lemma_rsplit_once_at(h, d, ':');
                assert(h.subrange(1, h.len() - 1) =~= inner);
                text::lemma_split_once_at(t, z, '%');
            }
        },
    }
}

} // verus!
