//! A tiny DNS client for the carrier's resolvers.
//!
//! MMSC host names commonly do not exist in public DNS at all, and when they do they can resolve
//! to addresses that are only routable inside the operator's network. Messages are read and
//! written here, and the order of the queries is decided; the sockets are the caller's.
use vstd::prelude::*;
use vstd::utf8::*;

use crate::net::{IpAddr, SocketAddr};
use crate::text;

verus! {

pub const TYPE_A: u16 = 1;

pub const TYPE_CNAME: u16 = 5;

pub const TYPE_AAAA: u16 = 28;

/// Why a name or a message cannot be used.
#[derive(Debug, Clone, Copy, PartialEq, Eq, Structural)]
pub enum DnsError {
    InvalidHost,
    TruncatedName,
    NameTooLong,
    TruncatedPointer,
    CompressionLoop,
    TruncatedLabel,
    ShortResponse,
    IdMismatch,
    NotAResponse,
    NxDomain,
    Rcode(u16),
    TruncatedRecord,
    TruncatedRdata,
}

#[derive(Debug, Clone, Copy, PartialEq, Eq, Structural)]
pub enum Reply {
    /// Answers the exact question we asked.
    Ours,
    /// Carries our transaction id but no echoed question: what a resolver sends when it refuses or
    /// cannot parse the query.
    Rejected(u16),
    /// For somebody else, or forged.
    NotOurs,
}

#[derive(Debug)]
pub struct Answer {
    pub addrs: Vec<IpAddr>,
    pub cname: Option<String>,
}

/// An answer, mathematically.
#[verifier::ext_equal]
pub struct Found {
    pub addrs: Seq<IpAddr>,
    pub cname: Option<Seq<char>>,
}

impl View for Answer {
    type V = Found;

    open spec fn view(&self) -> Found {
        Found { addrs: self.addrs@, cname: text::opt_text(self.cname) }
    }
}

pub open spec fn be16(m: Seq<u8>, i: int) -> u16 {
    (m[i] * 256 + m[i + 1]) as u16
}

fn read16(m: &[u8], i: usize) -> (r: u16)
    requires
        i + 1 < m@.len(),
    ensures
        r == be16(m@, i as int),
{
    let total = m.len();
    assert(i + 1 < total);
    m[i] as u16 * 256 + m[i + 1] as u16
}

/// The size of a message leaves room for the arithmetic on positions in it.
pub open spec fn sane(m: Seq<u8>) -> bool {
    m.len() + 512 <= usize::MAX
}

// ------------------------------------------------------------------ names

/// The position just past a possibly compressed name of at most `left` labels.
pub open spec fn name_end(m: Seq<u8>, pos: nat, left: nat) -> Result<nat, DnsError>
    decreases left,
{
    if left == 0 {
        Err(DnsError::NameTooLong)
    } else if pos >= m.len() {
        Err(DnsError::TruncatedName)
    } else if m[pos as int] == 0 {
        Ok(pos + 1)
    } else if m[pos as int] >= 0xc0 {
        Ok(pos + 2)
    } else {
        name_end(m, pos + 1 + m[pos as int] as nat, (left - 1) as nat)
    }
}

/// The text of a possibly compressed name, after `out`, with `hops` pointers left to follow.
pub open spec fn name_text(m: Seq<u8>, pos: nat, hops: nat, out: Seq<char>) -> Result<
    Seq<char>,
    DnsError,
>
    decreases hops, m.len() - pos,
{
    if pos >= m.len() {
        Err(DnsError::TruncatedName)
    } else {
        let len = m[pos as int];
        if len == 0 {
            Ok(out)
        } else if len >= 0xc0 {
            if pos + 1 >= m.len() {
                Err(DnsError::TruncatedPointer)
            } else if hops == 0 {
                Err(DnsError::CompressionLoop)
            } else {
                name_text(
                    m,
                    ((len - 0xc0) * 256 + m[pos as int + 1]) as nat,
                    (hops - 1) as nat,
                    out,
                )
            }
        } else if pos + 1 + len > m.len() {
            Err(DnsError::TruncatedLabel)
        } else {
            name_text(
                m,
                pos + 1 + len as nat,
                hops,
                with_label(out, m.subrange(pos as int + 1, pos as int + 1 + len)),
            )
        }
    }
}

pub open spec fn with_label(out: Seq<char>, label: Seq<u8>) -> Seq<char> {
    (if out.len() > 0 {
        out.push('.')
    } else {
        out
    }) + text::lossy(label)
}

/// Skip a possibly compressed name, returning the offset just past it.
fn skip_name(msg: &[u8], start: usize) -> (r: Result<usize, DnsError>)
    requires
        sane(msg@),
    ensures
        match r {
            Ok(p) => name_end(msg@, start as nat, 128) == Ok::<nat, DnsError>(p as nat) && p
                <= msg@.len() + 1,
            Err(e) => name_end(msg@, start as nat, 128) == Err::<nat, DnsError>(e),
        },
{
    let mut pos: usize = start;
    let mut left: usize = 128;
    while left > 0
        invariant
            left <= 128,
            sane(msg@),
            name_end(msg@, start as nat, 128) == name_end(msg@, pos as nat, left as nat),
        decreases left,
    {
        if pos >= msg.len() {
            return Err(DnsError::TruncatedName);
        }
        let len = msg[pos];
        if len == 0 {
            return Ok(pos + 1);
        }
        if len >= 0xc0 {
            return Ok(pos + 2);
        }
        pos = pos + 1 + len as usize;
        left -= 1;
    }
    Err(DnsError::NameTooLong)
}

/// Read a possibly compressed name as text.
fn read_name(msg: &[u8], start: usize) -> (r: Result<String, DnsError>)
    requires
        sane(msg@),
    ensures
        match r {
            Ok(t) => name_text(msg@, start as nat, 16, seq![]) == Ok::<Seq<char>, DnsError>(t@),
            Err(e) => name_text(msg@, start as nat, 16, seq![]) == Err::<Seq<char>, DnsError>(e),
        },
{
    let mut out = String::new();
    let mut hops: usize = 16;
    let mut pos: usize = start;
    loop
        invariant
            hops <= 16,
            sane(msg@),
            name_text(msg@, start as nat, 16, seq![]) == name_text(
                msg@,
                pos as nat,
                hops as nat,
                out@,
            ),
        decreases hops, msg@.len() - pos,
    {
        if pos >= msg.len() {
            return Err(DnsError::TruncatedName);
        }
        let len = msg[pos];
        if len == 0 {
            return Ok(out);
        }
        if len >= 0xc0 {
            if pos + 1 >= msg.len() {
                return Err(DnsError::TruncatedPointer);
            }
            if hops == 0 {
                return Err(DnsError::CompressionLoop);
            }
            pos = (len - 0xc0) as usize * 256 + msg[pos + 1] as usize;
            hops -= 1;
        } else {
            let end = pos + 1 + len as usize;
            if end > msg.len() {
                return Err(DnsError::TruncatedLabel);
            }
            let label = vstd::slice::slice_subrange(msg, pos + 1, end);
            if !out.as_str().is_empty() {
                out.push('.');
            }
            let piece = text::lossy_text(label);
            out.append(piece.as_str());
            pos = end;
        }
    }
}

// ------------------------------------------------------------------ questions

/// The labels of a host name.
pub open spec fn labels(host: Seq<char>) -> Seq<Seq<char>> {
    text::split(text::strip_end(host, '.'), '.')
}

pub open spec fn valid_label(l: Seq<char>) -> bool {
    l.len() > 0 && encode_utf8(l).len() <= 63
}

pub open spec fn valid_host(host: Seq<char>) -> bool {
    forall|i: int| 0 <= i < labels(host).len() ==> valid_label(#[trigger] labels(host)[i])
}

/// Each label behind its length.
pub open spec fn labels_bytes(l: Seq<Seq<char>>) -> Seq<u8>
    decreases l.len(),
{
    if l.len() == 0 {
        seq![]
    } else {
        labels_bytes(l.drop_last()) + (seq![encode_utf8(l.last()).len() as u8] + encode_utf8(
            l.last(),
        ))
    }
}

pub open spec fn u16_bytes(n: u16) -> Seq<u8> {
    seq![(n / 256) as u8, (n % 256) as u8]
}

/// The name, type and class of a question.
pub open spec fn question_bytes(host: Seq<char>, qtype: u16) -> Seq<u8> {
    labels_bytes(labels(host)).push(0) + u16_bytes(qtype) + seq![0u8, 1u8]
}

pub open spec fn query_bytes(id: u16, host: Seq<char>, qtype: u16) -> Seq<u8> {
    u16_bytes(id) + seq![1u8, 0u8, 0u8, 1u8, 0u8, 0u8, 0u8, 0u8, 0u8, 0u8] + question_bytes(
        host,
        qtype,
    )
}

/// One question, recursion desired.
pub fn build_query(id: u16, host: &str, qtype: u16) -> (r: Result<Vec<u8>, DnsError>)
    ensures
        match r {
            Ok(out) => valid_host(host@) && out@ == query_bytes(id, host@, qtype),
            Err(e) => !valid_host(host@) && e == DnsError::InvalidHost,
        },
{
    let mut out: Vec<u8> = Vec::new();
    out.push((id / 256) as u8);
    out.push((id % 256) as u8);
    out.push(1);
    out.push(0);
    out.push(0);
    out.push(1);
    out.push(0);
    out.push(0);
    out.push(0);
    out.push(0);
    out.push(0);
    out.push(0);
    let ghost head = u16_bytes(id) + seq![1u8, 0u8, 0u8, 1u8, 0u8, 0u8, 0u8, 0u8, 0u8, 0u8];
    assert(out@ =~= head);
    let c = text::chars_of(host);
    let parts = text::split_at_char(text::stripped_end(c.as_slice(), '.'), '.');
    let ghost ls = labels(host@);
    let mut i: usize = 0;
    assert(ls.take(0) =~= Seq::<Seq<char>>::empty());
    assert(out@ =~= head + labels_bytes(ls.take(0)));
    while i < parts.len()
        invariant
            i <= parts@.len(),
            text::slices(parts@) == ls,
            ls == labels(host@),
            forall|j: int| 0 <= j < i ==> valid_label(#[trigger] ls[j]),
            out@ == head + labels_bytes(ls.take(i as int)),
        decreases parts@.len() - i,
    {
        let part: &[char] = parts[i];
        assert(part@ == ls[i as int]);
        let label = text::string_of(part);
        let bytes = label.as_str().as_bytes();
        if part.len() == 0 || bytes.len() > 63 {
            assert(!valid_label(ls[i as int]));
            return Err(DnsError::InvalidHost);
        }
        let ghost before = out@;
        out.push(bytes.len() as u8);
        text::append_bytes(&mut out, bytes);
        i += 1;
        proof {
            assert(ls.take(i as int).drop_last() =~= ls.take(i - 1));
            assert(ls.take(i as int).last() == ls[i - 1]);
            assert(out@ =~= head + labels_bytes(ls.take(i as int)));
        }
    }
    assert(ls.take(i as int) =~= ls);
    out.push(0);
    out.push((qtype / 256) as u8);
    out.push((qtype % 256) as u8);
    out.push(0);
    out.push(1);
    assert(out@ =~= query_bytes(id, host@, qtype));
    Ok(out)
}

/// The message echoes a question: one, of this name and type, in class IN.
pub open spec fn echoes(m: Seq<u8>, host: Seq<char>, qtype: u16) -> bool {
    be16(m, 4) == 1 && match (name_text(m, 12, 16, seq![]), name_end(m, 12, 128)) {
        (Ok(name), Ok(after)) => after + 4 <= m.len() && be16(m, after as int) == qtype && be16(
            m,
            after as int + 2,
        ) == 1 && text::eq_nocase(name, text::strip_end(host, '.')),
        _ => false,
    }
}

pub open spec fn reply_kind(m: Seq<u8>, want_id: u16, host: Seq<char>, qtype: u16) -> Reply {
    if m.len() < 12 || be16(m, 0) != want_id || m[2] < 0x80 {
        Reply::NotOurs
    } else if echoes(m, host, qtype) {
        Reply::Ours
    } else if m[3] % 16 == 0 {
        Reply::NotOurs
    } else {
        Reply::Rejected((m[3] % 16) as u16)
    }
}

/// Does this datagram answer the exact question we asked?
pub fn classify(msg: &[u8], want_id: u16, host: &str, qtype: u16) -> (r: Reply)
    requires
        sane(msg@),
    ensures
        r == reply_kind(msg@, want_id, host@, qtype),
{
    if msg.len() < 12 || read16(msg, 0) != want_id {
        return Reply::NotOurs;
    }
    if msg[2] < 0x80 {
        return Reply::NotOurs;
    }
    let rcode = msg[3] % 16;
    let mut echoed = false;
    if read16(msg, 4) == 1 {
        let name = read_name(msg, 12);
        let end = skip_name(msg, 12);
        if let (Ok(name), Ok(after)) = (name, end) {
            if after + 4 <= msg.len() {
                let c = text::chars_of(host);
                let n = text::chars_of(name.as_str());
                echoed = read16(msg, after) == qtype && read16(msg, after + 2) == 1
                    && text::same_nocase(n.as_slice(), text::stripped_end(c.as_slice(), '.'));
            }
        }
    }
    if echoed {
        Reply::Ours
    } else if rcode == 0 {
        Reply::NotOurs
    } else {
        Reply::Rejected(rcode as u16)
    }
}

// ------------------------------------------------------------------ answers

/// The position past `k` questions.
pub open spec fn questions_end(m: Seq<u8>, pos: nat, k: nat) -> Result<nat, DnsError>
    decreases k,
{
    if k == 0 {
        Ok(pos)
    } else {
        match name_end(m, pos, 128) {
            Ok(p) => questions_end(m, p + 4, (k - 1) as nat),
            Err(e) => Err(e),
        }
    }
}

/// The big-endian number of bytes.
pub open spec fn octets_value(b: Seq<u8>) -> nat
    decreases b.len(),
{
    if b.len() == 0 {
        0
    } else {
        octets_value(b.drop_last()) * 256 + b.last() as nat
    }
}

/// What a record adds to an answer.
pub open spec fn record_added(
    m: Seq<u8>,
    pos: nat,
    rtype: u16,
    rdata: Seq<u8>,
    qtype: u16,
    a: Found,
) -> Found {
    if rtype == TYPE_A && rdata.len() == 4 && qtype == TYPE_A {
        Found { addrs: a.addrs.push(IpAddr::V4(octets_value(rdata) as u32)), ..a }
    } else if rtype == TYPE_AAAA && rdata.len() == 16 && qtype == TYPE_AAAA {
        Found { addrs: a.addrs.push(IpAddr::V6(octets_value(rdata) as u128)), ..a }
    } else if rtype == TYPE_CNAME && a.cname.is_none() {
        Found {
            cname: match name_text(m, pos, 16, seq![]) {
                Ok(t) => Some(t),
                Err(_) => None,
            },
            ..a
        }
    } else {
        a
    }
}

pub open spec fn records_read(m: Seq<u8>, pos: nat, k: nat, qtype: u16, a: Found) -> Result<
    Found,
    DnsError,
>
    decreases k,
{
    if k == 0 {
        Ok(a)
    } else {
        match name_end(m, pos, 128) {
            Err(e) => Err(e),
            Ok(p) => if p + 10 > m.len() {
                Err(DnsError::TruncatedRecord)
            } else {
                let n = be16(m, p as int + 8) as nat;
                if p + 10 + n > m.len() {
                    Err(DnsError::TruncatedRdata)
                } else {
                    records_read(
                        m,
                        p + 10 + n,
                        (k - 1) as nat,
                        qtype,
                        record_added(
                            m,
                            p + 10,
                            be16(m, p as int),
                            m.subrange(p as int + 10, p as int + 10 + n as int),
                            qtype,
                            a,
                        ),
                    )
                }
            },
        }
    }
}

pub open spec fn answer_of(m: Seq<u8>, want_id: u16, qtype: u16) -> Result<Found, DnsError> {
    if m.len() < 12 {
        Err(DnsError::ShortResponse)
    } else if be16(m, 0) != want_id {
        Err(DnsError::IdMismatch)
    } else if m[2] < 0x80 {
        Err(DnsError::NotAResponse)
    } else if m[3] % 16 == 3 {
        Err(DnsError::NxDomain)
    } else if m[3] % 16 != 0 {
        Err(DnsError::Rcode((m[3] % 16) as u16))
    } else {
        match questions_end(m, 12, be16(m, 4) as nat) {
            Err(e) => Err(e),
            Ok(p) => records_read(
                m,
                p,
                be16(m, 6) as nat,
                qtype,
                Found { addrs: seq![], cname: None },
            ),
        }
    }
}

fn octets32(b: &[u8]) -> (r: u32)
    requires
        b@.len() == 4,
    ensures
        r == octets_value(b@),
{
    proof {
        reveal_with_fuel(octets_value, 5);
        let d = b@.drop_last();
        assert(d.drop_last().drop_last().drop_last() =~= Seq::<u8>::empty());
    }
    b[0] as u32 * 0x100_0000 + b[1] as u32 * 0x1_0000 + b[2] as u32 * 0x100 + b[3] as u32
}

fn octets128(b: &[u8]) -> (r: u128)
    requires
        b@.len() == 16,
    ensures
        r == octets_value(b@),
{
    let mut acc: u128 = 0;
    let mut i: usize = 0;
    let ghost mut bound: int = 1;
    while i < 16
        invariant
            i <= 16,
            b@.len() == 16,
            acc == octets_value(b@.take(i as int)),
            acc < bound,
            i == 0 ==> bound == 1,
            i == 1 ==> bound == 0x100,
            i == 2 ==> bound == 0x1_0000,
            i == 3 ==> bound == 0x100_0000,
            i == 4 ==> bound == 0x1_0000_0000,
            i == 5 ==> bound == 0x100_0000_0000,
            i == 6 ==> bound == 0x1_0000_0000_0000,
            i == 7 ==> bound == 0x100_0000_0000_0000,
            i == 8 ==> bound == 0x1_0000_0000_0000_0000,
            i == 9 ==> bound == 0x100_0000_0000_0000_0000,
            i == 10 ==> bound == 0x1_0000_0000_0000_0000_0000,
            i == 11 ==> bound == 0x100_0000_0000_0000_0000_0000,
            i == 12 ==> bound == 0x1_0000_0000_0000_0000_0000_0000,
            i == 13 ==> bound == 0x100_0000_0000_0000_0000_0000_0000,
            i == 14 ==> bound == 0x1_0000_0000_0000_0000_0000_0000_0000,
            i == 15 ==> bound == 0x100_0000_0000_0000_0000_0000_0000_0000,
        decreases 16 - i,
    {
        assert(b@.take(i + 1).drop_last() =~= b@.take(i as int));
        acc = acc * 256 + b[i] as u128;
        i += 1;
        proof {
            bound = bound * 256;
        }
    }
    assert(b@.take(16) =~= b@);
    acc
}

fn add_record(
    msg: &[u8],
    pos: usize,
    rtype: u16,
    rdata: &[u8],
    qtype: u16,
    answer: &mut Answer,
)
    requires
        sane(msg@),
    ensures
        final(answer)@ == record_added(msg@, pos as nat, rtype, rdata@, qtype, old(answer)@),
{
    let ghost a = answer@;
    if rtype == TYPE_A && rdata.len() == 4 && qtype == TYPE_A {
        answer.addrs.push(IpAddr::V4(octets32(rdata)));
    } else if rtype == TYPE_AAAA && rdata.len() == 16 && qtype == TYPE_AAAA {
        answer.addrs.push(IpAddr::V6(octets128(rdata)));
    } else if rtype == TYPE_CNAME {
        if answer.cname.is_none() {
            answer.cname = match read_name(msg, pos) {
                Ok(t) => Some(t),
                Err(_) => None,
            };
        }
    }
    assert(answer@ =~= record_added(msg@, pos as nat, rtype, rdata@, qtype, a));
}

/// The addresses and the first alias of a response to the query `want_id`.
pub fn parse_answer(msg: &[u8], want_id: u16, qtype: u16) -> (r: Result<Answer, DnsError>)
    requires
        sane(msg@),
    ensures
        match r {
            Ok(a) => answer_of(msg@, want_id, qtype) == Ok::<Found, DnsError>(a@),
            Err(e) => answer_of(msg@, want_id, qtype) == Err::<Found, DnsError>(e),
        },
{
    if msg.len() < 12 {
        return Err(DnsError::ShortResponse);
    }
    if read16(msg, 0) != want_id {
        return Err(DnsError::IdMismatch);
    }
    if msg[2] < 0x80 {
        return Err(DnsError::NotAResponse);
    }
    let rcode = msg[3] % 16;
    if rcode == 3 {
        return Err(DnsError::NxDomain);
    }
    if rcode != 0 {
        return Err(DnsError::Rcode(rcode as u16));
    }
    let questions = read16(msg, 4);
    let records = read16(msg, 6);
    let mut pos: usize = 12;
    let mut k: u16 = questions;
    while k > 0
        invariant
            sane(msg@),
            pos <= msg@.len() + 12,
            questions_end(msg@, 12, questions as nat) == questions_end(msg@, pos as nat, k as nat),
            msg@.len() >= 12,
            answer_of(msg@, want_id, qtype) == match questions_end(msg@, 12, questions as nat) {
                Err(e) => Err::<Found, DnsError>(e),
                Ok(p) => records_read(
                    msg@,
                    p,
                    records as nat,
                    qtype,
                    Found { addrs: seq![], cname: None },
                ),
            },
        decreases k,
    {
        match skip_name(msg, pos) {
            Ok(p) => {
                pos = p + 4;
            },
            Err(e) => {
                return Err(e);
            },
        }
        k -= 1;
    }
    let mut answer = Answer { addrs: Vec::new(), cname: None };
    assert(answer@ =~= (Found { addrs: seq![], cname: None }));
    let mut k: u16 = records;
    while k > 0
        invariant
            sane(msg@),
            answer_of(msg@, want_id, qtype) == records_read(
                msg@,
                pos as nat,
                k as nat,
                qtype,
                answer@,
            ),
        decreases k,
    {
        let p = match skip_name(msg, pos) {
            Ok(p) => p,
            Err(e) => {
                return Err(e);
            },
        };
        if p + 10 > msg.len() {
            return Err(DnsError::TruncatedRecord);
        }
        let rtype = read16(msg, p);
        let n = read16(msg, p + 8) as usize;
        if n > msg.len() - (p + 10) {
            return Err(DnsError::TruncatedRdata);
        }
        let rdata = vstd::slice::slice_subrange(msg, p + 10, p + 10 + n);
        add_record(msg, p + 10, rtype, rdata, qtype, &mut answer);
        pos = p + 10 + n;
        k -= 1;
    }
    Ok(answer)
}

// ------------------------------------------------------------------ the order of the queries

/// Whom to ask, and from where.
#[derive(Debug)]
pub struct Resolver {
    /// Carrier resolvers, tried in order.
    pub servers: Vec<IpAddr>,
    /// Interface to bind the query socket to.
    pub interface: Option<String>,
    /// Source address of the query socket: the bearer's address.
    pub local_ip: Option<IpAddr>,
    pub timeout_ms: u64,
}

#[derive(Debug, Clone, Copy, PartialEq, Eq, Structural)]
pub enum LookupError {
    /// No carrier DNS server is known.
    NoServer,
    /// The carrier's DNS has no address for the host.
    NoAddress,
}

/// What a lookup wants next.
#[derive(Debug)]
pub enum LookupAction {
    Ask { server: IpAddr, host: String, qtype: u16 },
    Found(Vec<SocketAddr>),
    Failed(LookupError),
}

/// What a lookup wants next, mathematically.
pub enum Wanted {
    Ask { server: IpAddr, host: Seq<char>, qtype: u16 },
    Found(Seq<SocketAddr>),
    Failed(LookupError),
}

impl View for LookupAction {
    type V = Wanted;

    open spec fn view(&self) -> Wanted {
        match *self {
            LookupAction::Ask { server, host, qtype } => Wanted::Ask { server, host: host@, qtype },
            LookupAction::Found(v) => Wanted::Found(v@),
            LookupAction::Failed(e) => Wanted::Failed(e),
        }
    }
}

/// A lookup that is under way.
#[derive(Debug)]
pub struct Lookup {
    host: String,
    port: u16,
    servers: Vec<IpAddr>,
    qtype: u16,
    server: usize,
    /// The query is for the alias the server gave instead of an address.
    chasing: bool,
}

/// A lookup, mathematically.
#[verifier::ext_equal]
pub struct LookupState {
    pub host: Seq<char>,
    pub port: u16,
    pub servers: Seq<IpAddr>,
    pub qtype: u16,
    pub server: nat,
    pub chasing: bool,
}

impl View for Lookup {
    type V = LookupState;

    closed spec fn view(&self) -> LookupState {
        LookupState {
            host: self.host@,
            port: self.port,
            servers: self.servers@,
            qtype: self.qtype,
            server: self.server as nat,
            chasing: self.chasing,
        }
    }
}

pub open spec fn with_port(addrs: Seq<IpAddr>, port: u16) -> Seq<SocketAddr> {
    Seq::new(addrs.len(), |i: int| SocketAddr { ip: addrs[i], port, scope: 0 })
}

/// Ask the server the state points at for the host itself.
pub open spec fn asking(s: LookupState) -> (LookupState, Wanted) {
    (s, Wanted::Ask { server: s.servers[s.server as int], host: s.host, qtype: s.qtype })
}

/// The next server, then the next family, IPv4 before IPv6, then failure.
pub open spec fn moved_on(s: LookupState) -> (LookupState, Wanted) {
    if s.server + 1 < s.servers.len() {
        asking(LookupState { server: s.server + 1, chasing: false, ..s })
    } else if s.qtype == TYPE_A {
        asking(LookupState { server: 0, qtype: TYPE_AAAA, chasing: false, ..s })
    } else {
        (s, Wanted::Failed(LookupError::NoAddress))
    }
}

/// The answer to the query that was asked, or nothing where it failed.
pub open spec fn replied(s: LookupState, reply: Option<Found>) -> (LookupState, Wanted) {
    match reply {
        Some(a) => if a.addrs.len() > 0 {
            (s, Wanted::Found(with_port(a.addrs, s.port)))
        } else if a.cname.is_some() && !s.chasing {
            (
                LookupState { chasing: true, ..s },
                Wanted::Ask {
                    server: s.servers[s.server as int],
                    host: a.cname.unwrap(),
                    qtype: s.qtype,
                },
            )
        } else {
            moved_on(s)
        },
        None => moved_on(s),
    }
}

fn with_ports(addrs: &Vec<IpAddr>, port: u16) -> (r: Vec<SocketAddr>)
    ensures
        r@ == with_port(addrs@, port),
{
    let mut out: Vec<SocketAddr> = Vec::new();
    let mut i: usize = 0;
    while i < addrs.len()
        invariant
            i <= addrs@.len(),
            out@ == with_port(addrs@, port).take(i as int),
        decreases addrs@.len() - i,
    {
        out.push(SocketAddr { ip: addrs[i], port, scope: 0 });
        i += 1;
        assert(out@ =~= with_port(addrs@, port).take(i as int));
    }
    assert(out@ =~= with_port(addrs@, port));
    out
}

/// What a lookup starts with: a literal address needs no server.
pub open spec fn started(servers: Seq<IpAddr>, host: Seq<char>, port: u16) -> (
    LookupState,
    Wanted,
) {
    let s = LookupState { host, port, servers, qtype: TYPE_A, server: 0, chasing: false };
    match crate::net::ip_of(host) {
        Some(ip) => (s, Wanted::Found(seq![SocketAddr { ip, port, scope: 0 }])),
        None => if servers.len() == 0 {
            (s, Wanted::Failed(LookupError::NoServer))
        } else {
            asking(s)
        },
    }
}

impl Resolver {
    pub fn is_usable(&self) -> (r: bool)
        ensures
            r == (self.servers@.len() > 0),
    {
        self.servers.len() > 0
    }

    /// Resolve `host`, IPv4 answers first (the bearer is IPv4 in practice).
    pub fn lookup(&self, host: &str, port: u16) -> (r: (Lookup, LookupAction))
        ensures
            (r.0@, r.1@) == started(self.servers@, host@, port),
            r.1 is Ask ==> r.0.wf(),
    {
        let mut servers: Vec<IpAddr> = Vec::new();
        let mut i: usize = 0;
        while i < self.servers.len()
            invariant
                i <= self.servers@.len(),
                servers@ == self.servers@.take(i as int),
            decreases self.servers@.len() - i,
        {
            servers.push(self.servers[i]);
            i += 1;
            assert(servers@ =~= self.servers@.take(i as int));
        }
        assert(servers@ =~= self.servers@);
        let state = Lookup {
            host: text::owned(host),
            port,
            servers,
            qtype: TYPE_A,
            server: 0,
            chasing: false,
        };
        match crate::net::parse_ip(host) {
            Some(ip) => {
                let mut found: Vec<SocketAddr> = Vec::new();
                found.push(SocketAddr { ip, port, scope: 0 });
                assert(found@ =~= seq![SocketAddr { ip, port, scope: 0 }]);
                (state, LookupAction::Found(found))
            },
            None => if !self.is_usable() {
                (state, LookupAction::Failed(LookupError::NoServer))
            } else {
                let action = LookupAction::Ask {
                    server: state.servers[0],
                    host: text::owned(host),
                    qtype: TYPE_A,
                };
                (state, action)
            },
        }
    }

    /// The local end of the socket for a query: the bearer's address where it has the server's
    /// family, otherwise any.
    pub fn query_source(&self, server: IpAddr) -> (r: SocketAddr)
        ensures
            r.port == 0,
            r.scope == 0,
            r.ip == match self.local_ip {
                Some(ip) => if (ip is V4) == (server is V4) {
                    ip
                } else if server is V4 {
                    IpAddr::V4(0)
                } else {
                    IpAddr::V6(0)
                },
                None => if server is V4 {
                    IpAddr::V4(0)
                } else {
                    IpAddr::V6(0)
                },
            },
    {
        let any = if server.is_ipv4() {
            IpAddr::V4(0)
        } else {
            IpAddr::V6(0)
        };
        let ip = match self.local_ip {
            Some(ip) => if ip.is_ipv4() == server.is_ipv4() {
                ip
            } else {
                any
            },
            None => any,
        };
        SocketAddr { ip, port: 0, scope: 0 }
    }
}

impl Lookup {
    /// The state points at a server.
    pub open spec fn wf(&self) -> bool {
        self@.server < self@.servers.len()
    }

    fn ask(&self) -> (r: LookupAction)
        requires
            self.wf(),
        ensures
            (self@, r@) == asking(self@),
    {
        LookupAction::Ask {
            server: self.servers[self.server],
            host: self.host.clone(),
            qtype: self.qtype,
        }
    }

    fn move_on(&mut self) -> (r: LookupAction)
        requires
            old(self).wf(),
        ensures
            final(self).wf(),
            (final(self)@, r@) == moved_on(old(self)@),
    {
        if self.server < self.servers.len() - 1 {
            self.server += 1;
            self.chasing = false;
            self.ask()
        } else if self.qtype == TYPE_A {
            self.server = 0;
            self.qtype = TYPE_AAAA;
            self.chasing = false;
            self.ask()
        } else {
            LookupAction::Failed(LookupError::NoAddress)
        }
    }

    /// The answer to the query that was asked; nothing where it failed or was not answered.
    pub fn on_reply(&mut self, reply: Option<Answer>) -> (r: LookupAction)
        requires
            old(self).wf(),
        ensures
            final(self).wf(),
            (final(self)@, r@) == replied(
                old(self)@,
                match reply {
                    Some(a) => Some(a@),
                    None => None,
                },
            ),
    {
        match reply {
            Some(a) => {
                if a.addrs.len() > 0 {
                    return LookupAction::Found(with_ports(&a.addrs, self.port));
                }
                if !self.chasing {
                    if let Some(target) = a.cname {
                        self.chasing = true;
                        return LookupAction::Ask {
                            server: self.servers[self.server],
                            host: target,
                            qtype: self.qtype,
                        };
                    }
                }
                self.move_on()
            },
            None => self.move_on(),
        }
    }
}

/// How many more queries a lookup can make at most.
pub open spec fn queries_left(s: LookupState) -> int {
    (if s.qtype == TYPE_A {
        2 * s.servers.len()
    } else {
        0
    }) + 2 * (s.servers.len() - s.server) - (if s.chasing {
        1int
    } else {
        0
    })
}

/// Every further query uses up one of at most four per server, so a lookup always ends.
pub proof fn law_lookup_ends(s: LookupState, reply: Option<Found>)
    requires
        s.server < s.servers.len(),
    ensures
        replied(s, reply).1 is Ask ==> 0 < queries_left(replied(s, reply).0) < queries_left(s),
        queries_left(s) <= 4 * s.servers.len(),
{
}

// ------------------------------------------------------------------ a question answered is ours

proof fn lemma_labels_walk(
    m: Seq<u8>,
    pos: nat,
    ls: Seq<Seq<char>>,
    k: nat,
    left: nat,
    out: Seq<char>,
)
    requires
        k <= ls.len(),
        k + 1 <= left,
        forall|i: int| 0 <= i < ls.len() ==> valid_label(#[trigger] ls[i]),
        pos + labels_bytes(ls.take(k as int)).len() <= m.len(),
        m.subrange(pos as int, pos + labels_bytes(ls.take(k as int)).len() as int) == labels_bytes(
            ls.take(k as int),
        ),
        out.len() == 0,
    ensures
        name_end(m, pos, left) == name_end(
            m,
            pos + labels_bytes(ls.take(k as int)).len(),
            (left - k) as nat,
        ),
        name_text(m, pos, 16, out) == name_text(
            m,
            pos + labels_bytes(ls.take(k as int)).len(),
            16,
            text::join(ls.take(k as int), seq!['.']),
        ),
    decreases k,
{
    let t = ls.take(k as int);
    let n = labels_bytes(t).len();
    if k == 0 {
        assert(t =~= Seq::<Seq<char>>::empty());
        assert(out =~= Seq::<char>::empty());
    } else {
        let u = ls.take(k - 1);
        assert(t.drop_last() =~= u);
        let l = ls[k - 1];
        let e = encode_utf8(l);
        assert(t.last() == l);
        assert(valid_label(l));
        text::lemma_first_byte(l);
        let a = labels_bytes(u).len();
        let whole = labels_bytes(t);
        assert(whole == labels_bytes(u) + (seq![e.len() as u8] + e));
        assert(m.subrange(pos as int, pos + a as int) =~= whole.take(a as int)) by {
            assert(m.subrange(pos as int, pos + n as int).take(a as int) =~= m.subrange(
                pos as int,
                pos + a as int,
            ));
        }
        assert(whole.take(a as int) =~= labels_bytes(u));
        lemma_labels_walk(m, pos, ls, (k - 1) as nat, left, out);
        let p = pos + a;
        assert(m[p as int] == e.len()) by {
            assert(m.subrange(pos as int, pos + n as int)[a as int] == m[p as int]);
        }
        assert(m.subrange(p as int + 1, p as int + 1 + e.len() as int) =~= e) by {
            assert forall|i: int| 0 <= i < e.len() implies m[p + 1 + i] == #[trigger] e[i] by {
                assert(m.subrange(pos as int, pos + n as int)[a + 1 + i] == m[p + 1 + i]);
            }
        }
        text::law_utf8_reads_back(l);
        let before = text::join(u, seq!['.']);
        if k == 1 {
            assert(u =~= Seq::<Seq<char>>::empty());
            assert(with_label(before, e) =~= text::join(t, seq!['.']));
        } else {
            lemma_join_nonempty(u);
            assert(with_label(before, e) =~= text::join(t, seq!['.']));
        }
    }
}

proof fn lemma_join_nonempty(u: Seq<Seq<char>>)
    requires
        u.len() > 0,
        forall|i: int| 0 <= i < u.len() ==> (#[trigger] u[i]).len() > 0,
    ensures
        text::join(u, seq!['.']).len() > 0,
{
    assert(u.last().len() > 0);
}

/// A response that carries the id of a query and starts with its question, whatever follows, is
/// taken as the answer to it: for any host of at most 127 valid labels.
pub proof fn law_our_question_is_recognised(
    m: Seq<u8>,
    id: u16,
    host: Seq<char>,
    qtype: u16,
)
    requires
        valid_host(host),
        labels(host).len() <= 127,
        m.len() >= 12 + question_bytes(host, qtype).len(),
        be16(m, 0) == id,
        m[2] >= 0x80,
        be16(m, 4) == 1,
        m.subrange(12, 12 + question_bytes(host, qtype).len() as int) == question_bytes(
            host,
            qtype,
        ),
    ensures
        reply_kind(m, id, host, qtype) == Reply::Ours,
{
    let ls = labels(host);
    let q = question_bytes(host, qtype);
    let n = labels_bytes(ls).len();
    let w = m.subrange(12, 12 + q.len() as int);
    assert(ls.take(ls.len() as int) =~= ls);
    assert(m.subrange(12, 12 + n as int) =~= labels_bytes(ls)) by {
        assert(w.take(n as int) =~= m.subrange(12, 12 + n as int));
        assert(q.take(n as int) =~= labels_bytes(ls));
    }
    lemma_labels_walk(m, 12, ls, ls.len(), 128, seq![]);
    assert(m[12 + n as int] == 0) by {
        assert(w[n as int] == m[12 + n as int]);
    }
    let p = 13 + n as int;
    assert(be16(m, p) == qtype) by {
        assert(w[n as int + 1] == m[p] && w[n as int + 2] == m[p + 1]);
        assert(q[n as int + 1] == (qtype / 256) as u8 && q[n as int + 2] == (qtype % 256) as u8);
    }
    assert(be16(m, p + 2) == 1) by {
        assert(w[n as int + 3] == m[p + 2] && w[n as int + 4] == m[p + 3]);
    }
    text::law_split_joins_back(text::strip_end(host, '.'), '.');
}

/// The id and the question of a query stand in it where a response repeats them.
pub proof fn law_query_carries_its_question(id: u16, host: Seq<char>, qtype: u16)
    ensures
        be16(query_bytes(id, host, qtype), 0) == id,
        be16(query_bytes(id, host, qtype), 4) == 1,
        query_bytes(id, host, qtype).skip(12) == question_bytes(host, qtype),
{
    assert(query_bytes(id, host, qtype).skip(12) =~= question_bytes(host, qtype));
}

} // verus!
