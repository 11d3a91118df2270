//! How the messaging centre is found and reached, and what comes back from it.
use vstd::prelude::*;

use super::dns;
use super::dns::{DnsError, Found, LookupState, Wanted};
use super::http;
use super::http::{BodyEnd, Got, HttpError, Reading};
use crate::http_head;
use crate::net::{IpAddr, SocketAddr};
use crate::text;

verus! {

// ------------------------------------------------------------------ where a request goes

/// An address of the web names a host, a port, which is eighty where none is named, and a path, which
/// is a slash where there is none.
pub proof fn law_a_url_is_read(host: Seq<char>, port: u16, path: Seq<char>)
    requires
        !host.contains('/'),
        !host.contains(':'),
        !host.contains('@'),
        path.len() > 0,
        path[0] == '/',
    ensures
        http::url_of("http://"@ + host + path) == Ok::<(Seq<char>, u16, Seq<char>), HttpError>(
            (host, 80u16, path),
        ),
        http::url_of("http://"@ + host + ":"@ + text::dec(port as nat) + path) == Ok::<
            (Seq<char>, u16, Seq<char>),
            HttpError,
        >((host, port, path)),
        http::url_of("http://"@ + host) == Ok::<(Seq<char>, u16, Seq<char>), HttpError>(
            (host, 80u16, "/"@),
        ),
        http::url_of("https://"@ + host) == Err::<(Seq<char>, u16, Seq<char>), HttpError>(
            HttpError::Https,
        ),
{
    reveal_strlit("http://");
    reveal_strlit("https://");
    reveal_strlit(":");
    reveal_strlit("/");
    let d = text::dec(port as nat);
    text::lemma_dec_reads_back(port as nat);
    text::law_decimal_round_trip(port as nat, 0xffff);
    let full = host + ":"@ + d;
    assert forall|i: int| 0 <= i < full.len() implies full[i] != '/' && full[i] != '@' by {
        if i < host.len() {
            assert(host.contains(host[i]));
        } else if i > host.len() {
            assert(text::is_digit(d[i - host.len() - 1]));
        }
    }
    lemma_after("http://"@, host + path);
    lemma_cut(host, path);
    assert("http://"@ + (host + path) =~= "http://"@ + host + path);
    text::lemma_rsplit_once_none(host, '@');
    text::lemma_rsplit_once_none(host, ':');
    lemma_after("http://"@, full + path);
    lemma_cut(full, path);
    assert("http://"@ + (full + path) =~= "http://"@ + host + ":"@ + d + path);
    text::lemma_rsplit_once_none(full, '@');
    assert(!d.contains(':')) by {
        assert forall|i: int| 0 <= i < d.len() implies d[i] != ':' by {
            assert(text::is_digit(d[i]));
        }
    }
    text::lemma_rsplit_once_at(host, d, ':');
    assert(host + seq![':'] + d =~= full);
    lemma_after("http://"@, host);
    text::lemma_split_once_none(host, '/');
    let s = "https://"@ + host;
    assert(s.take(8) =~= "https://"@);
    assert(s.take(7)[4] != "http://"@[4]);
}

proof fn lemma_after(p: Seq<char>, rest: Seq<char>)
    ensures
        text::after_prefix(p + rest, p) == Some(rest),
{
    assert((p + rest).take(p.len() as int) =~= p);
    assert((p + rest).skip(p.len() as int) =~= rest);
}

proof fn lemma_cut(authority: Seq<char>, path: Seq<char>)
    requires
        !authority.contains('/'),
        path.len() > 0,
        path[0] == '/',
    ensures
        text::find(authority + path, '/') == authority.len(),
        (authority + path).take(authority.len() as int) == authority,
        (authority + path).skip(authority.len() as int) == path,
{
    let s = authority + path;
    assert forall|i: int| 0 <= i < authority.len() implies s[i] != '/' by {
        assert(authority.contains(authority[i]));
    }
    text::lemma_find_unique(s, '/', authority.len() as int);
    assert(s.take(authority.len() as int) =~= authority);
    assert(s.skip(authority.len() as int) =~= path);
}

/// Without a proxy a request goes to the host of its address and asks for the path; with one it goes
/// to the proxy and asks for the whole address. Either way it names the host it is for.
pub proof fn law_a_proxy_is_asked_for_the_whole_address(
    url: Seq<char>,
    host: Seq<char>,
    port: u16,
    path: Seq<char>,
    proxy: Seq<char>,
    proxy_port: u16,
)
    requires
        http::url_of(url) == Ok::<(Seq<char>, u16, Seq<char>), HttpError>((host, port, path)),
    ensures
        ({
            let name = if port == 80 {
                host
            } else {
                host + ":"@ + text::dec(port as nat)
            };
            &&& http::plan_of(url, None) == Ok::<_, HttpError>((host, port, path, name))
            &&& http::plan_of(url, Some(proxy + seq![':'] + text::dec(proxy_port as nat))) == Ok::<
                _,
                HttpError,
            >((proxy, proxy_port, url, name))
        }),
{
    let d = text::dec(proxy_port as nat);
    text::lemma_dec_reads_back(proxy_port as nat);
    text::law_decimal_round_trip(proxy_port as nat, 0xffff);
    assert(!d.contains(':')) by {
        assert forall|i: int| 0 <= i < d.len() implies d[i] != ':' by {
            assert(text::is_digit(d[i]));
        }
    }
    text::lemma_rsplit_once_at(proxy, d, ':');
}

/// The addresses of the older family are tried first; within a family their order is kept, and every
/// one is tried.
pub proof fn law_every_address_is_tried(s: Seq<SocketAddr>)
    ensures
        http::of_family(s, false) == s.filter(|a: SocketAddr| a.ip is V4),
        http::of_family(s, true) == s.filter(|a: SocketAddr| a.ip is V6),
        http::of_family(s, false).len() + http::of_family(s, true).len() == s.len(),
    decreases s.len(),
{
    reveal(Seq::filter);
    if s.len() > 0 {
        law_every_address_is_tried(s.drop_last());
    }
}

/// A request names its method and what it asks for in its first line, then its host, who asks, the
/// profile of the device where there is one, the type of its body where it has one, and last the length
/// of its body.
pub proof fn law_a_request_names_its_host(
    method: Seq<char>,
    target: Seq<char>,
    host: Seq<char>,
    agent: Seq<char>,
    profile: Option<Seq<char>>,
    kind: Option<Seq<char>>,
    length: nat,
)
    ensures
        ({
            let head = http::request_head(method, target, host, agent, profile, kind, length);
            let first = method + " "@ + target + " HTTP/1.1\r\nHost: "@ + host + "\r\nUser-Agent: "@
                + agent + "\r\n"@;
            let last = "Content-Length: "@ + text::dec(length) + "\r\n\r\n"@;
            &&& head.len() >= first.len() && head.take(first.len() as int) == first
            &&& head.len() >= last.len() && head.skip(head.len() - last.len()) == last
            &&& profile matches Some(p) ==> text::holds(head, "x-wap-profile: "@ + p + "\r\n"@)
            &&& kind matches Some(t) ==> text::holds(head, "Content-Type: "@ + t + "\r\n"@)
        }),
{
    let head = http::request_head(method, target, host, agent, profile, kind, length);
    let first = method + " "@ + target + " HTTP/1.1\r\nHost: "@ + host + "\r\nUser-Agent: "@ + agent
        + "\r\n"@;
    let none = Seq::<char>::empty();
    let b = match profile {
        Some(p) => "x-wap-profile: "@ + p + "\r\n"@,
        None => none,
    };
    let c = "Accept: application/vnd.wap.mms-message, */*\r\n"@ + "Accept-Charset: utf-8\r\n"@
        + "Connection: close\r\n"@;
    let d = match kind {
        Some(t) => "Content-Type: "@ + t + "\r\n"@,
        None => none,
    };
    let last = "Content-Length: "@ + text::dec(length) + "\r\n\r\n"@;
    assert(head =~= first + b + c + d + last);
    assert(head.take(first.len() as int) =~= first);
    assert(head.skip(head.len() - last.len()) =~= last);
    text::lemma_holds_itself(b);
    text::lemma_held(first, b, c + d + last, b);
    assert(first + b + (c + d + last) =~= head);
    text::lemma_holds_itself(d);
    text::lemma_held(first + b + c, d, last, d);
}

// ------------------------------------------------------------------ what comes back

/// What comes back is its status, its headers and its body: all that came until the end where nothing
/// says how long it is, as much as was said where something does, and the chunks put together where it
/// came in chunks.
pub proof fn law_a_body_comes_back_whole(resp: Got, n: usize)
    ensures
        http::response_of(Reading::Body { resp, end: BodyEnd::Closed }) == Ok::<Got, HttpError>(
            resp,
        ),
        resp.body.len() <= n ==> (http::response_of(
            Reading::Body { resp, end: BodyEnd::Length(n) },
        ) == Ok::<Got, HttpError>(resp)),
        resp.body.len() > n ==> (http::response_of(
            Reading::Body { resp, end: BodyEnd::Length(n) },
        ) matches Ok(r) && r.body == resp.body.take(n as int) && r.status == resp.status
            && r.headers == resp.headers),
        http::response_of(Reading::Body { resp, end: BodyEnd::Chunked }) matches Ok(r) && r.body
            == http::dechunked(resp.body) && r.status == resp.status && r.headers == resp.headers,
        http::is_complete(Reading::Body { resp, end: BodyEnd::Length(n) }) <==> resp.body.len() >= n,
        !http::is_complete(Reading::Body { resp, end: BodyEnd::Closed }),
        !http::is_complete(Reading::Body { resp, end: BodyEnd::Chunked }),
{
}

/// How long a body is, its headers say: in chunks where the transfer is said to be, whatever else is
/// said; as long as is declared; and until the end where neither is.
pub proof fn law_the_headers_say_where_a_body_ends(f: Seq<(Seq<char>, Seq<char>)>)
    ensures
        ({
            let chunked = http_head::field_value(f, "transfer-encoding"@) matches Some(v) && exists|
                i: int,
            |
                0 <= i <= v.len() - 7 && #[trigger] text::lower(v).subrange(i, i + 7) == "chunked"@;
            &&& chunked ==> http::body_end_of(f) == BodyEnd::Chunked
            &&& !chunked ==> match http_head::field_value(f, "content-length"@) {
                Some(n) => match text::number(text::trim(n), usize::MAX as nat) {
                    Some(n) => http::body_end_of(f) == BodyEnd::Length(n as usize),
                    None => http::body_end_of(f) == BodyEnd::Closed,
                },
                None => http::body_end_of(f) == BodyEnd::Closed,
            }
        }),
{
    reveal_strlit("chunked");
    match http_head::field_value(f, "transfer-encoding"@) {
        Some(v) => {
            text::law_a_text_is_found_where_it_stands(text::lower(v), "chunked"@);
        },
        None => {},
    }
}

// ------------------------------------------------------------------ names

/// What a record holds is added to what was found: four octets are an address of the older family and
/// sixteen one of the newer, with their first octet the highest, where such was asked for; everything
/// found before stays.
pub proof fn law_a_record_adds_its_address(m: Seq<u8>, pos: nat, rdata: Seq<u8>, a: Found)
    ensures
        rdata.len() == 4 ==> dns::record_added(m, pos, 1, rdata, 1, a) == (Found {
            addrs: a.addrs.push(
                IpAddr::V4(
                    (rdata[0] * 0x100_0000 + rdata[1] * 0x1_0000 + rdata[2] * 0x100
                        + rdata[3]) as u32,
                ),
            ),
            cname: a.cname,
        }),
        rdata.len() == 16 ==> dns::record_added(m, pos, 28, rdata, 28, a) == (Found {
            addrs: a.addrs.push(IpAddr::V6(dns::octets_value(rdata) as u128)),
            cname: a.cname,
        }),
        rdata.len() != 4 ==> dns::record_added(m, pos, 1, rdata, 1, a) == a,
        rdata.len() != 16 ==> dns::record_added(m, pos, 28, rdata, 28, a) == a,
        dns::record_added(m, pos, 1, rdata, 28, a) == a,
        dns::record_added(m, pos, 28, rdata, 1, a) == a,
{
    if rdata.len() == 4 {
        lemma_four_octets(rdata);
    }
}

proof fn lemma_four_octets(b: Seq<u8>)
    requires
        b.len() == 4,
    ensures
        dns::octets_value(b) == b[0] * 0x100_0000 + b[1] * 0x1_0000 + b[2] * 0x100 + b[3],
{
    reveal_with_fuel(dns::octets_value, 5);
    assert(b.drop_last().last() == b[2]);
    assert(b.drop_last().drop_last().last() == b[1]);
    assert(b.drop_last().drop_last().drop_last().last() == b[0]);
    assert(b.drop_last().drop_last().drop_last().drop_last() =~= seq![]);
}

/// A search ends with every address that an answer gives, in its order, at the port that is wanted. It
/// goes on where an answer gives none: to the name that stands in for it, once; to the next server; and
/// when all were asked, from the first again for the newer family.
pub proof fn law_a_search_asks_everyone(s: LookupState, a: Found)
    requires
        s.server < s.servers.len(),
    ensures
        a.addrs.len() > 0 ==> (dns::replied(s, Some(a)).1 matches Wanted::Found(v) && v.len()
            == a.addrs.len() && forall|i: int|
            0 <= i < v.len() ==> #[trigger] v[i] == (SocketAddr {
                ip: a.addrs[i],
                port: s.port,
                scope: 0,
            })),
        a.addrs.len() == 0 && a.cname.is_some() && !s.chasing ==> dns::replied(s, Some(a)).1 == (
        Wanted::Ask {
            server: s.servers[s.server as int],
            host: a.cname.unwrap(),
            qtype: s.qtype,
        }),
        s.server + 1 < s.servers.len() ==> dns::replied(s, None).1 == (Wanted::Ask {
            server: s.servers[s.server as int + 1],
            host: s.host,
            qtype: s.qtype,
        }),
        s.server + 1 == s.servers.len() && s.qtype == 1 ==> dns::replied(s, None).1 == (
        Wanted::Ask { server: s.servers[0], host: s.host, qtype: 28 }),
        s.server + 1 == s.servers.len() && s.qtype != 1 ==> dns::replied(s, None).1 is Failed,
        a.addrs.len() == 0 && (a.cname.is_none() || s.chasing) ==> dns::replied(s, Some(a))
            == dns::replied(s, None),
{
}

/// A question is its number, that it is one and wants to be followed up, that it is the only one, and
/// then the labels of the name with their lengths, the kind that is asked for and the class.
pub proof fn law_a_question_is_laid_out(id: u16, host: Seq<char>, qtype: u16)
    ensures
        dns::query_bytes(id, host, qtype) == seq![
            (id / 256) as u8,
            (id % 256) as u8,
            1u8,
            0u8,
            0u8,
            1u8,
            0u8,
            0u8,
            0u8,
            0u8,
            0u8,
            0u8,
        ] + dns::labels_bytes(dns::labels(host)) + seq![
            0u8,
            (qtype / 256) as u8,
            (qtype % 256) as u8,
            0u8,
            1u8,
        ],
{
    assert(dns::query_bytes(id, host, qtype) =~= seq![
        (id / 256) as u8,
        (id % 256) as u8,
        1u8,
        0u8,
        0u8,
        1u8,
        0u8,
        0u8,
        0u8,
        0u8,
        0u8,
        0u8,
    ] + dns::labels_bytes(dns::labels(host)) + seq![
        0u8,
        (qtype / 256) as u8,
        (qtype % 256) as u8,
        0u8,
        1u8,
    ]);
}

/// A record whose name points back is read by its kind and what it holds, and the next one begins behind
/// it.
pub proof fn law_a_record_is_read(m: Seq<u8>, pos: nat, k: nat, qtype: u16, a: Found, n: nat)
    requires
        pos + 12 + n <= m.len(),
        m[pos as int] >= 0xc0,
        m[pos as int + 10] * 256 + m[pos as int + 11] == n,
    ensures
        dns::records_read(m, pos, k + 1, qtype, a) == dns::records_read(
            m,
            pos + 12 + n,
            k,
            qtype,
            dns::record_added(
                m,
                pos + 12,
                (m[pos as int + 2] * 256 + m[pos as int + 3]) as u16,
                m.subrange(pos as int + 12, pos as int + 12 + n as int),
                qtype,
                a,
            ),
        ),
        dns::records_read(m, pos, 0, qtype, a) == Ok::<Found, dns::DnsError>(a),
{
    assert(dns::name_end(m, pos, 128) == Ok::<nat, dns::DnsError>(pos + 2));
}

// ------------------------------------------------------------------ what is told by an answer

/// A label of a name is a byte with its length and that many bytes, and is added behind a dot; a zero
/// ends the name, and two bytes of which the first begins with two set bits lead to where it goes on.
pub proof fn law_a_name_is_read_label_by_label(m: Seq<u8>, pos: nat, hops: nat, out: Seq<char>)
    requires
        pos < m.len(),
    ensures
        m[pos as int] == 0 ==> dns::name_text(m, pos, hops, out) == Ok::<Seq<char>, DnsError>(out),
        0 < m[pos as int] < 0xc0 && pos + 1 + m[pos as int] <= m.len() && out.len() == 0
            ==> dns::name_text(m, pos, hops, out) == dns::name_text(
            m,
            (pos + 1 + m[pos as int]) as nat,
            hops,
            text::lossy(m.subrange(pos as int + 1, pos as int + 1 + m[pos as int])),
        ),
        0 < m[pos as int] < 0xc0 && pos + 1 + m[pos as int] <= m.len() && out.len() > 0
            ==> dns::name_text(m, pos, hops, out) == dns::name_text(
            m,
            (pos + 1 + m[pos as int]) as nat,
            hops,
            out + seq!['.'] + text::lossy(m.subrange(pos as int + 1, pos as int + 1 + m[pos as int])),
        ),
        m[pos as int] >= 0xc0 && pos + 1 < m.len() && hops > 0 ==> dns::name_text(m, pos, hops, out)
            == dns::name_text(
            m,
            ((m[pos as int] - 0xc0) * 256 + m[pos as int + 1]) as nat,
            (hops - 1) as nat,
            out,
        ),
        m[pos as int] >= 0xc0 && pos + 1 < m.len() && hops == 0 ==> dns::name_text(
            m,
            pos,
            hops,
            out,
        ) is Err,
{
    let n = m[pos as int];
    if 0 < n < 0xc0 && pos + 1 + n <= m.len() {
        let label = text::lossy(m.subrange(pos as int + 1, pos as int + 1 + n));
        assert(out.len() == 0 ==> out + label =~= label);
        assert(out.push('.') + label =~= out + seq!['.'] + label);
    }
}

/// A name ends behind its zero or behind the pointer that it goes on at.
pub proof fn law_a_name_is_passed_over(m: Seq<u8>, pos: nat, left: nat)
    requires
        pos < m.len(),
        left > 0,
    ensures
        m[pos as int] == 0 ==> dns::name_end(m, pos, left) == Ok::<nat, DnsError>(pos + 1),
        m[pos as int] >= 0xc0 ==> dns::name_end(m, pos, left) == Ok::<nat, DnsError>(pos + 2),
        0 < m[pos as int] < 0xc0 ==> dns::name_end(m, pos, left) == dns::name_end(
            m,
            (pos + 1 + m[pos as int]) as nat,
            (left - 1) as nat,
        ),
{
}

/// Nothing is learned but from an answer to the question that was asked: one under its number that says
/// it is an answer and that nothing went wrong.
pub proof fn law_only_an_answer_is_learned_from(m: Seq<u8>, id: u16, kind: u16)
    ensures
        dns::answer_of(m, id, kind) is Ok ==> m.len() >= 12 && m[0] * 256 + m[1] == id && m[2] >= 0x80
            && m[3] % 16 == 0,
        m.len() >= 12 && m[0] * 256 + m[1] == id && m[2] >= 0x80 && m[3] % 16 == 3
            ==> dns::answer_of(m, id, kind) == Err::<Found, DnsError>(DnsError::NxDomain),
        m.len() >= 12 && m[0] * 256 + m[1] != id ==> dns::answer_of(m, id, kind) == Err::<
            Found,
            DnsError,
        >(DnsError::IdMismatch),
        m.len() < 12 ==> dns::answer_of(m, id, kind) == Err::<Found, DnsError>(
            DnsError::ShortResponse,
        ),
{
}

} // verus!
