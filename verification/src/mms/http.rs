//! A very small HTTP/1.1 client.
//!
//! MMS traffic must leave through the modem's data interface (and often via the carrier's WAP
//! proxy), which needs source-address and device control that general purpose clients do not expose
//! conveniently. The protocol surface needed here is tiny, so it is implemented directly; the socket
//! is the caller's.
use vstd::prelude::*;

use crate::http_head;
use crate::net;
use crate::net::{IpAddr, SocketAddr};
use crate::sip::message;
use crate::text;

verus! {

#[derive(Debug)]
pub struct HttpOptions {
    /// "host:port" of a WAP/HTTP proxy.
    pub proxy: Option<String>,
    /// Network interface to bind to.
    pub interface: Option<String>,
    /// Source address to bind to.
    pub local_ip: Option<IpAddr>,
    pub timeout_secs: u64,
    pub user_agent: String,
    pub ua_profile: Option<String>,
    /// Refuse bodies larger than this.
    pub max_size: usize,
    /// Carrier DNS servers. When set, names are resolved through the modem instead of the system
    /// resolver - MMSC names are frequently absent from public DNS or resolve to addresses only the
    /// operator can route.
    pub dns_servers: Vec<IpAddr>,
}

#[derive(Debug)]
pub struct HttpResponse {
    pub status: u16,
    pub headers: Vec<(String, String)>,
    pub body: Vec<u8>,
}

/// A response, mathematically.
#[verifier::ext_equal]
pub struct Got {
    pub status: u16,
    pub headers: Seq<(Seq<char>, Seq<char>)>,
    pub body: Seq<u8>,
}

impl View for HttpResponse {
    type V = Got;

    open spec fn view(&self) -> Got {
        Got { status: self.status, headers: text::pairs(self.headers@), body: self.body@ }
    }
}

impl HttpResponse {
    pub fn header(&self, name: &str) -> (r: Option<&str>)
        ensures
            text::opt_str(r) == http_head::field_value(self@.headers, name@),
    {
        http_head::find_field(&self.headers, name)
    }

    pub fn content_type(&self) -> (r: Option<&str>)
        ensures
            text::opt_str(r) == http_head::field_value(self@.headers, "content-type"@),
    {
        self.header("content-type")
    }
}

/// Why an exchange fails.
#[derive(Debug, PartialEq, Eq)]
pub enum HttpError {
    /// https is not supported.
    Https,
    UnsupportedUrl,
    BadProxy,
    BadProxyPort,
    /// The connection was closed before the head was complete.
    ClosedEarly,
    HeadTooLarge,
    BadStatusLine,
    BodyTooLarge,
}

// ------------------------------------------------------------------ targets

#[derive(Debug)]
pub struct Url {
    pub host: String,
    pub port: u16,
    pub path: String,
}

/// The host and port of an authority, leaving user information aside.
pub open spec fn authority_of(s: Seq<char>) -> (Seq<char>, u16) {
    let a = match text::rsplit_once(s, '@') {
        Some((_, h)) => h,
        None => s,
    };
    match text::rsplit_once(a, ':') {
        Some((h, p)) => if !h.contains(':') {
            (
                h,
                match text::number(p, 0xffff) {
                    Some(n) => n as u16,
                    None => 80,
                },
            )
        } else {
            (a, 80)
        },
        None => (a, 80),
    }
}

/// The host, port and path of a URL.
pub open spec fn url_of(url: Seq<char>) -> Result<(Seq<char>, u16, Seq<char>), HttpError> {
    match text::after_prefix(url, "http://"@) {
        Some(rest) => {
            let i = text::find(rest, '/');
            let (authority, path) = if i < rest.len() {
                (rest.take(i), rest.skip(i))
            } else {
                (rest, "/"@)
            };
            let (host, port) = authority_of(authority);
            Ok((host, port, path))
        },
        None => if text::has_prefix(url, "https://"@) {
            Err(HttpError::Https)
        } else {
            Err(HttpError::UnsupportedUrl)
        },
    }
}

fn read_authority(s: &[char]) -> (r: (String, u16))
    ensures
        (r.0@, r.1) == authority_of(s@),
{
    let a = match text::cut_last(s, '@') {
        Some((_, h)) => h,
        None => s,
    };
    match text::cut_last(a, ':') {
        Some((h, p)) => if !text::contains_char(h, ':') {
            (
                text::string_of(h),
                match text::parse_u16(p) {
                    Some(n) => n,
                    None => 80,
                },
            )
        } else {
            (text::string_of(a), 80)
        },
        None => (text::string_of(a), 80),
    }
}

pub fn parse_url(url: &str) -> (r: Result<Url, HttpError>)
    ensures
        match r {
            Ok(u) => url_of(url@) == Ok::<_, HttpError>((u.host@, u.port, u.path@)),
            Err(e) => url_of(url@) == Err::<(Seq<char>, u16, Seq<char>), _>(e),
        },
{
    let c = text::chars_of(url);
    match text::strip_prefix(c.as_slice(), "http://") {
        Some(rest) => {
            let i = text::index_of(rest, '/');
            if i < rest.len() {
                let (host, port) = read_authority(text::take(rest, i));
                Ok(Url { host, port, path: text::string_of(text::skip(rest, i)) })
            } else {
                let (host, port) = read_authority(rest);
                Ok(Url { host, port, path: text::owned("/") })
            }
        },
        None => if text::starts_with(c.as_slice(), "https://") {
            Err(HttpError::Https)
        } else {
            Err(HttpError::UnsupportedUrl)
        },
    }
}

/// The value of a Host header.
pub open spec fn host_value(host: Seq<char>, port: u16) -> Seq<char> {
    if port == 80 {
        host
    } else {
        host + ":"@ + text::dec(port as nat)
    }
}

/// Where to connect to, and what to ask for there.
#[derive(Debug)]
pub struct Plan {
    pub host: String,
    pub port: u16,
    /// The target on the request line: the path, or the whole URL for a proxy.
    pub target: String,
    pub host_header: String,
}

pub open spec fn plan_of(url: Seq<char>, proxy: Option<Seq<char>>) -> Result<
    (Seq<char>, u16, Seq<char>, Seq<char>),
    HttpError,
> {
    match url_of(url) {
        Err(e) => Err(e),
        Ok((host, port, path)) => match proxy {
            Some(p) => match text::rsplit_once(p, ':') {
                Some((h, n)) => match text::number(n, 0xffff) {
                    Some(n) => Ok((h, n as u16, url, host_value(host, port))),
                    None => Err(HttpError::BadProxyPort),
                },
                None => Err(HttpError::BadProxy),
            },
            None => Ok((host, port, path, host_value(host, port))),
        },
    }
}

fn host_header(url: &Url) -> (r: String)
    ensures
        r@ == host_value(url.host@, url.port),
{
    let mut out = text::owned(url.host.as_str());
    if url.port != 80 {
        out.append(":");
        text::push_dec(&mut out, url.port as u64);
    }
    out
}

/// Where to connect to for a URL, through a proxy if there is one.
pub fn plan(url: &str, proxy: Option<&str>) -> (r: Result<Plan, HttpError>)
    ensures
        match r {
            Ok(p) => plan_of(url@, text::opt_str(proxy)) == Ok::<_, HttpError>(
                (p.host@, p.port, p.target@, p.host_header@),
            ),
            Err(e) => plan_of(url@, text::opt_str(proxy)) == Err::<
                (Seq<char>, u16, Seq<char>, Seq<char>),
                _,
            >(e),
        },
{
    let u = match parse_url(url) {
        Ok(u) => u,
        Err(e) => {
            return Err(e);
        },
    };
    let header = host_header(&u);
    match proxy {
        Some(p) => {
            let c = text::chars_of(p);
            match text::cut_last(c.as_slice(), ':') {
                Some((h, n)) => match text::parse_u16(n) {
                    Some(port) => Ok(
                        Plan {
                            host: text::string_of(h),
                            port,
                            target: text::owned(url),
                            host_header: header,
                        },
                    ),
                    None => Err(HttpError::BadProxyPort),
                },
                None => Err(HttpError::BadProxy),
            }
        },
        None => Ok(Plan { host: u.host, port: u.port, target: u.path, host_header: header }),
    }
}

/// The time a request may take, in seconds.
pub fn request_timeout(opts: &HttpOptions) -> (r: u64)
    ensures
        r == if opts.timeout_secs == 0 {
            60u64
        } else {
            opts.timeout_secs
        },
{
    if opts.timeout_secs == 0 {
        60
    } else {
        opts.timeout_secs
    }
}

/// The addresses of a family, in their order.
pub open spec fn of_family(s: Seq<SocketAddr>, v6: bool) -> Seq<SocketAddr>
    decreases s.len(),
{
    if s.len() == 0 {
        seq![]
    } else if (s.last().ip is V6) == v6 {
        of_family(s.drop_last(), v6).push(s.last())
    } else {
        of_family(s.drop_last(), v6)
    }
}

/// The addresses to try, IPv4 first.
pub fn ipv4_first(addrs: &Vec<SocketAddr>) -> (r: Vec<SocketAddr>)
    ensures
        r@ == of_family(addrs@, false) + of_family(addrs@, true),
{
    let mut v4: Vec<SocketAddr> = Vec::new();
    let mut v6: Vec<SocketAddr> = Vec::new();
    let mut i: usize = 0;
    assert(v4@ =~= of_family(addrs@.take(0), false));
    assert(v6@ =~= of_family(addrs@.take(0), true));
    while i < addrs.len()
        invariant
            i <= addrs@.len(),
            v4@ == of_family(addrs@.take(i as int), false),
            v6@ == of_family(addrs@.take(i as int), true),
        decreases addrs@.len() - i,
    {
        assert(addrs@.take(i + 1).drop_last() =~= addrs@.take(i as int));
        if addrs[i].ip.is_ipv6() {
            v6.push(addrs[i]);
        } else {
            v4.push(addrs[i]);
        }
        i += 1;
    }
    assert(addrs@.take(i as int) =~= addrs@);
    let mut k: usize = 0;
    let ghost first = v4@;
    while k < v6.len()
        invariant
            k <= v6@.len(),
            v4@ =~= first + v6@.take(k as int),
        decreases v6@.len() - k,
    {
        v4.push(v6[k]);
        k += 1;
    }
    assert(v6@.take(k as int) =~= v6@);
    v4
}

// ------------------------------------------------------------------ requests

/// The head of a request.
pub open spec fn request_head(
    method: Seq<char>,
    target: Seq<char>,
    host: Seq<char>,
    user_agent: Seq<char>,
    profile: Option<Seq<char>>,
    content_type: Option<Seq<char>>,
    length: nat,
) -> Seq<char> {
    let a = method + " "@ + target + " HTTP/1.1\r\nHost: "@ + host + "\r\nUser-Agent: "@ + user_agent
        + "\r\n"@;
    let b = match profile {
        Some(p) => a + "x-wap-profile: "@ + p + "\r\n"@,
        None => a,
    };
    let c = b + "Accept: application/vnd.wap.mms-message, */*\r\n"@ + "Accept-Charset: utf-8\r\n"@
        + "Connection: close\r\n"@;
    let d = match content_type {
        Some(t) => c + "Content-Type: "@ + t + "\r\n"@,
        None => c,
    };
    d + "Content-Length: "@ + text::dec(length) + "\r\n\r\n"@
}

/// The head of a request for a plan.
pub fn build_head(
    method: &str,
    plan: &Plan,
    opts: &HttpOptions,
    content_type: Option<&str>,
    length: usize,
) -> (r: String)
    ensures
        r@ == request_head(
            method@,
            plan.target@,
            plan.host_header@,
            opts.user_agent@,
            text::opt_text(opts.ua_profile),
            text::opt_str(content_type),
            length as nat,
        ),
{
    let mut out = text::owned(method);
    out.append(" ");
    out.append(plan.target.as_str());
    out.append(" HTTP/1.1\r\nHost: ");
    out.append(plan.host_header.as_str());
    out.append("\r\nUser-Agent: ");
    out.append(opts.user_agent.as_str());
    out.append("\r\n");
    if let Some(p) = &opts.ua_profile {
        out.append("x-wap-profile: ");
        out.append(p.as_str());
        out.append("\r\n");
    }
    out.append("Accept: application/vnd.wap.mms-message, */*\r\n");
    out.append("Accept-Charset: utf-8\r\n");
    out.append("Connection: close\r\n");
    if let Some(t) = content_type {
        out.append("Content-Type: ");
        out.append(t);
        out.append("\r\n");
    }
    out.append("Content-Length: ");
    text::push_dec(&mut out, length as u64);
    out.append("\r\n\r\n");
    out
}

// ------------------------------------------------------------------ responses

/// The body of chunks: each is a hexadecimal size on a line of its own, and so many bytes. A chunk
/// that is cut off ends the body with what there is of it.
pub open spec fn dechunked(data: Seq<u8>) -> Seq<u8>
    decreases data.len(),
    via dechunked_decreases
{
    let eol = message::find_bytes(data, seq![13u8, 10]);
    if eol < 0 {
        seq![]
    } else {
        let size = chunk_size(data.take(eol));
        let rest = data.skip(eol + 2);
        if size == 0 {
            seq![]
        } else if size > rest.len() {
            rest
        } else if size + 2 > rest.len() {
            rest.take(size as int)
        } else {
            rest.take(size as int) + dechunked(rest.skip(size as int + 2))
        }
    }
}

/// The size on a line, leaving an extension behind a semicolon aside; zero where it cannot be read.
pub open spec fn chunk_size(line: Seq<u8>) -> nat {
    let t = text::trim(text::split(text::lossy(line), ';')[0]);
    match text::hex_number(t, usize::MAX as nat) {
        Some(n) => n,
        None => 0,
    }
}

proof fn lemma_find_bytes_bound(s: Seq<u8>, needle: Seq<u8>)
    ensures
        message::find_bytes(s, needle) >= 0 ==> message::find_bytes(s, needle) + needle.len()
            <= s.len(),
        message::find_bytes(s, needle) >= -1,
    decreases s.len(),
{
    if s.len() >= needle.len() && s.take(needle.len() as int) != needle && s.len() > 0 {
        lemma_find_bytes_bound(s.skip(1), needle);
    }
}

#[via_fn]
proof fn dechunked_decreases(data: Seq<u8>) {
    lemma_find_bytes_bound(data, seq![13u8, 10]);
}

fn read_chunk_size(line: &[u8]) -> (r: usize)
    ensures
        r == chunk_size(line@),
{
    let s = text::lossy_text(line);
    let c = text::chars_of(s.as_str());
    let parts = text::split_at_char(c.as_slice(), ';');
    assert(text::slices(parts@)[0] == parts@[0]@);
    match text::parse_hex(text::trimmed(parts[0]), usize::MAX as u64) {
        Some(n) => n as usize,
        None => 0,
    }
}

pub fn dechunk(data: &[u8]) -> (r: Vec<u8>)
    ensures
        r@ == dechunked(data@),
{
    let mut eol_bytes: Vec<u8> = Vec::new();
    eol_bytes.push(13);
    eol_bytes.push(10);
    assert(eol_bytes@ =~= seq![13u8, 10]);
    let mut out: Vec<u8> = Vec::new();
    let mut rest: &[u8] = data;
    assert(out@ + dechunked(data@) =~= dechunked(data@));
    loop
        invariant
            eol_bytes@ == seq![13u8, 10],
            out@ + dechunked(rest@) == dechunked(data@),
        decreases rest@.len(),
    {
        let ghost so_far = out@;
        let total = rest.len();
        let eol = match message::find_sub(rest, eol_bytes.as_slice()) {
            Some(i) => i,
            None => {
                assert(out@ =~= dechunked(data@));
                return out;
            },
        };
        assert(eol + 2 <= total);
        let line = vstd::slice::slice_subrange(rest, 0, eol);
        assert(line@ =~= rest@.take(eol as int));
        let size = read_chunk_size(line);
        let tail = vstd::slice::slice_subrange(rest, eol + 2, total);
        assert(tail@ =~= rest@.skip(eol + 2));
        if size == 0 {
            assert(out@ =~= dechunked(data@));
            return out;
        }
        let left = tail.len();
        if size > left {
            text::append_bytes(&mut out, tail);
            return out;
        }
        let chunk = vstd::slice::slice_subrange(tail, 0, size);
        assert(chunk@ =~= tail@.take(size as int));
        text::append_bytes(&mut out, chunk);
        if left - size < 2 {
            return out;
        }
        rest = vstd::slice::slice_subrange(tail, size + 2, left);
        assert(rest@ =~= tail@.skip(size as int + 2));
        assert(out@ + dechunked(rest@) =~= so_far + (tail@.take(size as int) + dechunked(
            tail@.skip(size as int + 2),
        )));
    }
}

/// A body as its chunks carry it: each a line with its size, its bytes and a line end, then the line
/// of the last chunk and what follows it.
pub open spec fn in_chunks(
    chunks: Seq<(Seq<u8>, Seq<u8>)>,
    last: Seq<u8>,
    trailer: Seq<u8>,
) -> Seq<u8>
    decreases chunks.len(),
{
    if chunks.len() == 0 {
        last + seq![13u8, 10] + trailer
    } else {
        chunks[0].0 + seq![13u8, 10] + (chunks[0].1 + seq![13u8, 10] + in_chunks(
            chunks.skip(1),
            last,
            trailer,
        ))
    }
}

/// The bytes of chunks, one after the other.
pub open spec fn chunk_bytes(chunks: Seq<(Seq<u8>, Seq<u8>)>) -> Seq<u8>
    decreases chunks.len(),
{
    if chunks.len() == 0 {
        seq![]
    } else {
        chunks[0].1 + chunk_bytes(chunks.skip(1))
    }
}

proof fn lemma_line_end_found(line: Seq<u8>, rest: Seq<u8>)
    requires
        !line.contains(13u8),
    ensures
        message::find_bytes(line + seq![13u8, 10] + rest, seq![13u8, 10]) == line.len(),
        (line + seq![13u8, 10] + rest).take(line.len() as int) == line,
        (line + seq![13u8, 10] + rest).skip(line.len() as int + 2) == rest,
    decreases line.len(),
{
    let eol = seq![13u8, 10];
    let s = line + eol + rest;
    assert(s.take(line.len() as int) =~= line);
    assert(s.skip(line.len() as int + 2) =~= rest);
    if line.len() == 0 {
        assert(s.take(2) =~= eol);
    } else {
        assert(line.contains(line[0]));
        assert(s.take(2)[0] == line[0]);
        assert(s.take(2) != eol);
        assert forall|b: u8| line.skip(1).contains(b) implies line.contains(b) by {
            let i = choose|i: int| 0 <= i < line.skip(1).len() && line.skip(1)[i] == b;
            assert(line[i + 1] == b);
        }
        lemma_line_end_found(line.skip(1), rest);
        assert(s.skip(1) =~= line.skip(1) + eol + rest);
    }
}

/// A body that comes in chunks is put together again: every chunk of the announced size, in order,
/// and nothing of the lines around them or of what follows the last.
pub proof fn law_chunks_are_put_together(
    chunks: Seq<(Seq<u8>, Seq<u8>)>,
    last: Seq<u8>,
    trailer: Seq<u8>,
)
    requires
        forall|i: int|
            0 <= i < chunks.len() ==> !(#[trigger] chunks[i]).0.contains(13u8) && chunk_size(
                chunks[i].0,
            ) == chunks[i].1.len() && chunks[i].1.len() > 0,
        !last.contains(13u8),
        chunk_size(last) == 0,
    ensures
        dechunked(in_chunks(chunks, last, trailer)) == chunk_bytes(chunks),
    decreases chunks.len(),
{
    if chunks.len() == 0 {
        lemma_line_end_found(last, trailer);
    } else {
        let (line, bytes) = chunks[0];
        let more = in_chunks(chunks.skip(1), last, trailer);
        let rest = bytes + seq![13u8, 10] + more;
        lemma_line_end_found(line, rest);
        assert(rest.take(bytes.len() as int) =~= bytes);
        assert(rest.skip(bytes.len() as int + 2) =~= more);
        assert forall|i: int| 0 <= i < chunks.skip(1).len() implies !(
        #[trigger] chunks.skip(1)[i]).0.contains(13u8) && chunk_size(chunks.skip(1)[i].0)
            == chunks.skip(1)[i].1.len() && chunks.skip(1)[i].1.len() > 0 by {
            assert(chunks.skip(1)[i] == chunks[i + 1]);
        }
        law_chunks_are_put_together(chunks.skip(1), last, trailer);
    }
}

/// How the end of a body is found.
#[derive(Debug, Clone, Copy, PartialEq, Eq, Structural)]
pub enum BodyEnd {
    /// In chunks, up to the end of the connection.
    Chunked,
    /// After a number of bytes.
    Length(usize),
    /// At the end of the connection.
    Closed,
}

/// The limit on a body; eight megabytes where none is set.
pub open spec fn limit_of(max_size: usize) -> usize {
    if max_size == 0 {
        8_388_608
    } else {
        max_size
    }
}

pub open spec fn body_end_of(f: Seq<(Seq<char>, Seq<char>)>) -> BodyEnd {
    let chunked = match http_head::field_value(f, "transfer-encoding"@) {
        Some(v) => text::find_text(text::lower(v), "chunked"@) >= 0,
        None => false,
    };
    if chunked {
        BodyEnd::Chunked
    } else {
        match http_head::declared_length(f) {
            Some(n) => BodyEnd::Length(n as usize),
            None => BodyEnd::Closed,
        }
    }
}

/// The status of a head: the second word of its first line.
pub open spec fn status_in(head: Seq<char>) -> Option<nat> {
    let w = text::words(http_head::head_lines(head)[0]);
    if w.len() > 1 {
        text::number(w[1], 0xffff)
    } else {
        None
    }
}

/// A response as it arrives.
#[derive(Debug)]
pub enum ResponseReader {
    /// What was read of the head.
    Head(Vec<u8>),
    /// The head is complete, and what was read of the body.
    Body { resp: HttpResponse, end: BodyEnd },
}

/// A response as it arrives, mathematically.
pub enum Reading {
    Head(Seq<u8>),
    Body { resp: Got, end: BodyEnd },
}

impl View for ResponseReader {
    type V = Reading;

    open spec fn view(&self) -> Reading {
        match *self {
            ResponseReader::Head(b) => Reading::Head(b@),
            ResponseReader::Body { resp, end } => Reading::Body { resp: resp@, end },
        }
    }
}

/// The reading once more bytes came.
pub open spec fn read_more(r: Reading, chunk: Seq<u8>, max_size: usize) -> Result<
    Reading,
    HttpError,
> {
    match r {
        Reading::Head(b) => {
            let all = b + chunk;
            let at = http_head::head_end(all);
            if all.len() > http_head::MAX_HEAD {
                Err(HttpError::HeadTooLarge)
            } else if at < 0 {
                Ok(Reading::Head(all))
            } else {
                let head = text::lossy(all.take(at));
                let f = http_head::fields_of(http_head::head_lines(head).skip(1));
                match status_in(head) {
                    None => Err(HttpError::BadStatusLine),
                    Some(n) => {
                        let got = Got { status: n as u16, headers: f, body: all.skip(at + 4) };
                        match body_end_of(f) {
                            BodyEnd::Length(len) => if len > limit_of(max_size) {
                                Err(HttpError::BodyTooLarge)
                            } else {
                                Ok(Reading::Body { resp: got, end: BodyEnd::Length(len) })
                            },
                            end => Ok(Reading::Body { resp: got, end }),
                        }
                    },
                }
            }
        },
        Reading::Body { resp, end } => {
            let body = resp.body + chunk;
            match end {
                BodyEnd::Length(_) => Ok(Reading::Body { resp: Got { body, ..resp }, end }),
                _ => if body.len() > limit_of(max_size) {
                    Err(HttpError::BodyTooLarge)
                } else {
                    Ok(Reading::Body { resp: Got { body, ..resp }, end })
                },
            }
        },
    }
}

/// A reading that has all it needs before the connection ends.
pub open spec fn is_complete(r: Reading) -> bool {
    match r {
        Reading::Body { resp, end: BodyEnd::Length(n) } => resp.body.len() >= n,
        _ => false,
    }
}

/// The response of a reading, once nothing more is read.
pub open spec fn response_of(r: Reading) -> Result<Got, HttpError> {
    match r {
        Reading::Head(_) => Err(HttpError::ClosedEarly),
        Reading::Body { resp, end } => Ok(
            Got {
                body: match end {
                    BodyEnd::Chunked => dechunked(resp.body),
                    BodyEnd::Length(n) => if n < resp.body.len() {
                        resp.body.take(n as int)
                    } else {
                        resp.body
                    },
                    BodyEnd::Closed => resp.body,
                },
                ..resp
            },
        ),
    }
}

fn body_end(f: &Vec<(String, String)>) -> (r: BodyEnd)
    ensures
        r == body_end_of(text::pairs(f@)),
{
    if let Some(v) = http_head::find_field(f, "transfer-encoding") {
        let c = text::chars_of(v);
        if text::contains_text(text::lowercase(c.as_slice()).as_slice(), "chunked") {
            return BodyEnd::Chunked;
        }
    }
    match http_head::content_length(f) {
        Some(n) => BodyEnd::Length(n),
        None => BodyEnd::Closed,
    }
}

fn read_status(line: &[char]) -> (r: Option<u16>)
    ensures
        text::opt_nat_u16(r) == {
            let w = text::words(line@);
            if w.len() > 1 {
                text::number(w[1], 0xffff)
            } else {
                None
            }
        },
{
    let w = text::words_of(line);
    if w.len() > 1 {
        assert(text::slices(w@)[1] == w@[1]@);
        text::parse_u16(w[1])
    } else {
        None
    }
}

impl ResponseReader {
    pub fn new() -> (r: Self)
        ensures
            r@ == Reading::Head(seq![]),
    {
        let b: Vec<u8> = Vec::new();
        assert(b@ =~= seq![]);
        ResponseReader::Head(b)
    }

    /// Take more bytes.
    pub fn push(self, chunk: &[u8], max_size: usize) -> (r: Result<Self, HttpError>)
        ensures
            match r {
                Ok(next) => read_more(self@, chunk@, max_size) == Ok::<Reading, HttpError>(next@),
                Err(e) => read_more(self@, chunk@, max_size) == Err::<Reading, HttpError>(e),
            },
    {
        let limit = if max_size == 0 {
            8_388_608
        } else {
            max_size
        };
        match self {
            ResponseReader::Head(b) => {
                let mut all = b;
                text::append_bytes(&mut all, chunk);
                if all.len() > http_head::MAX_HEAD {
                    return Err(HttpError::HeadTooLarge);
                }
                let at = match http_head::find_head_end(all.as_slice()) {
                    Some(i) => i,
                    None => {
                        return Ok(ResponseReader::Head(all));
                    },
                };
                let s = all.as_slice();
                let head = text::lossy_text(vstd::slice::slice_subrange(s, 0, at));
                assert(s@.subrange(0, at as int) =~= all@.take(at as int));
                let c = text::chars_of(head.as_str());
                let lines = http_head::lines_of_head(c.as_slice());
                assert(text::slices(lines@)[0] == lines@[0]@);
                let status = match read_status(lines[0]) {
                    Some(n) => n,
                    None => {
                        return Err(HttpError::BadStatusLine);
                    },
                };
                let headers = http_head::read_fields(&lines, 1);
                let end = body_end(&headers);
                if let BodyEnd::Length(n) = end {
                    if n > limit {
                        return Err(HttpError::BodyTooLarge);
                    }
                }
                let body = vstd::slice::slice_to_vec(
                    vstd::slice::slice_subrange(s, at + 4, s.len()),
                );
                assert(body@ =~= all@.skip(at + 4));
                Ok(ResponseReader::Body { resp: HttpResponse { status, headers, body }, end })
            },
            ResponseReader::Body { resp, end } => {
                let mut resp = resp;
                text::append_bytes(&mut resp.body, chunk);
                let counted = match end {
                    BodyEnd::Length(_) => false,
                    _ => true,
                };
                if counted && resp.body.len() > limit {
                    return Err(HttpError::BodyTooLarge);
                }
                Ok(ResponseReader::Body { resp, end })
            },
        }
    }

    pub fn complete(&self) -> (r: bool)
        ensures
            r == is_complete(self@),
    {
        match self {
            ResponseReader::Body { resp, end: BodyEnd::Length(n) } => resp.body.len() >= *n,
            _ => false,
        }
    }

    /// The response, once nothing more is read.
    pub fn finish(self) -> (r: Result<HttpResponse, HttpError>)
        ensures
            match r {
                Ok(x) => response_of(self@) == Ok::<Got, HttpError>(x@),
                Err(e) => response_of(self@) == Err::<Got, HttpError>(e),
            },
    {
        match self {
            ResponseReader::Head(_) => Err(HttpError::ClosedEarly),
            ResponseReader::Body { resp, end } => {
                let mut resp = resp;
                match end {
                    BodyEnd::Chunked => {
                        resp.body = dechunk(resp.body.as_slice());
                    },
                    BodyEnd::Length(n) => {
                        if n < resp.body.len() {
                            resp.body = vstd::slice::slice_to_vec(
                                vstd::slice::slice_subrange(resp.body.as_slice(), 0, n),
                            );
                        }
                    },
                    BodyEnd::Closed => {},
                }
                Ok(resp)
            },
        }
    }
}

/// However a response is cut into pieces on its way, it is read the same: two pieces one after the
/// other make what they make together, for a response that keeps to the limits.
pub proof fn law_pieces_of_a_response_add_up(r: Reading, a: Seq<u8>, b: Seq<u8>, max_size: usize)
    requires
        match r {
            Reading::Head(h) => h.len() + a.len() + b.len() <= http_head::MAX_HEAD && h.len()
                + a.len() + b.len() <= limit_of(max_size),
            Reading::Body { resp, .. } => resp.body.len() + a.len() + b.len() <= limit_of(
                max_size,
            ),
        },
    ensures
        match read_more(r, a, max_size) {
            Ok(next) => read_more(next, b, max_size) == read_more(r, a + b, max_size),
            Err(e) => read_more(r, a + b, max_size) == Err::<Reading, HttpError>(e),
        },
{
    match r {
        Reading::Head(h) => {
            let first = h + a;
            assert(h + (a + b) =~= first + b);
            if http_head::head_end(first) >= 0 {
                http_head::lemma_head_stays(first, b);
            }
        },
        Reading::Body { resp, end } => {
            assert(resp.body + a + b =~= resp.body + (a + b));
        },
    }
}

// ------------------------------------------------------------------ names

/// How a host is looked up.
#[derive(Debug, Clone, Copy, PartialEq, Eq, Structural)]
pub enum HostLookup {
    /// It is an address.
    Address(SocketAddr),
    /// Through the carrier's resolvers first, then the system's.
    CarrierFirst,
    /// Through the system's resolver.
    System,
}

/// The carrier's own resolvers are asked first, over the modem: MMSC names are often missing from
/// public DNS, and when they are present they can point at addresses only the operator can route.
pub fn resolve(host: &str, port: u16, opts: &HttpOptions) -> (r: HostLookup)
    ensures
        r == match net::ip_of(host@) {
            Some(ip) => HostLookup::Address(SocketAddr { ip, port, scope: 0 }),
            None => if opts.dns_servers@.len() > 0 {
                HostLookup::CarrierFirst
            } else {
                HostLookup::System
            },
        },
{
    match net::parse_ip(host) {
        Some(ip) => HostLookup::Address(SocketAddr { ip, port, scope: 0 }),
        None => if opts.dns_servers.len() > 0 {
            HostLookup::CarrierFirst
        } else {
            HostLookup::System
        },
    }
}

} // verus!
