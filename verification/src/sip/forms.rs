//! How addresses, messages and descriptions look on the wire.
use vstd::prelude::*;
use vstd::utf8::encode_utf8;

use super::auth;
use super::message;
use super::message::{Answered, Asked, Fields, Hop};
use super::sdp;
use super::sdp::{Codec, Direction, Progress, Session};
use super::uri;
use super::uri::{Address, Party};
use super::wire;
use crate::net;
use crate::net::IpAddr;
use crate::text;

verus! {

// ------------------------------------------------------------------ addresses

/// An address is its scheme, its user in front of its host, and its port, parameters and headers
/// behind it, each set off by the sign that is its own.
pub proof fn law_an_address_is_written(u: Address, user: Seq<char>, port: u16)
    requires
        u.host.len() > 0,
        u.password.is_none(),
        u.params.len() == 0,
        u.headers.len() == 0,
    ensures
        u.user.is_none() && u.port.is_none() ==> uri::uri_text(u) == u.scheme + ":"@ + u.host,
        u.user == Some(user) && u.port.is_none() ==> uri::uri_text(u) == u.scheme + ":"@ + user
            + "@"@ + u.host,
        u.user.is_none() && u.port == Some(port) ==> uri::uri_text(u) == u.scheme + ":"@ + u.host
            + ":"@ + text::dec(port as nat),
        u.user == Some(user) && u.port == Some(port) ==> uri::uri_text(u) == u.scheme + ":"@ + user
            + "@"@ + u.host + ":"@ + text::dec(port as nat),
{
    let none = Seq::<char>::empty();
    assert(uri::params_text(u.params) =~= none);
    assert(uri::uri_headers_text(u.headers) =~= none);
    let at = "@"@;
    assert(user + none + at =~= user + at);
    if u.user.is_none() {
        assert(uri::user_text(u) =~= none);
    } else {
        assert(uri::user_text(u) =~= u.user.unwrap() + at);
    }
    if u.user.is_none() && u.port.is_none() {
        assert(uri::uri_text(u) =~= u.scheme + ":"@ + u.host);
    }
    if u.user == Some(user) && u.port.is_none() {
        assert(uri::uri_text(u) =~= u.scheme + ":"@ + user + "@"@ + u.host);
    }
    if u.user.is_none() && u.port == Some(port) {
        assert(uri::uri_text(u) =~= u.scheme + ":"@ + u.host + ":"@ + text::dec(port as nat));
    }
    if u.user == Some(user) && u.port == Some(port) {
        assert(uri::uri_text(u) =~= u.scheme + ":"@ + user + "@"@ + u.host + ":"@ + text::dec(
            port as nat,
        ));
    }
}

/// Every parameter of an address is written behind it, in its order.
pub proof fn law_a_parameter_is_written(
    u: Address,
    name: Seq<char>,
    value: Seq<char>,
)
    requires
        u.headers.len() == 0,
    ensures
        uri::uri_text(Address { params: u.params.push((name, Some(value))), ..u }) == uri::uri_text(u)
            + ";"@ + name + "="@ + value,
        uri::uri_text(Address { params: u.params.push((name, None)), ..u }) == uri::uri_text(u)
            + ";"@ + name,
{
    let none = Seq::<char>::empty();
    assert(uri::uri_headers_text(u.headers) =~= none);
    let with = u.params.push((name, Some(value)));
    let bare = u.params.push((name, None::<Seq<char>>));
    assert(with.drop_last() =~= u.params);
    assert(bare.drop_last() =~= u.params);
    assert(uri::uri_text(Address { params: with, ..u }) =~= uri::uri_text(u) + ";"@ + name + "="@
        + value);
    assert(uri::uri_text(Address { params: bare, ..u }) =~= uri::uri_text(u) + ";"@ + name);
}

/// A party is its name in quotes, where it has one, and its address in brackets; its parameters follow.
pub proof fn law_a_party_is_written(p: Party, display: Seq<char>, name: Seq<char>, value: Seq<char>)
    ensures
        p.params.len() == 0 && p.display.is_none() ==> uri::party_text(p) == "<"@ + uri::uri_text(
            p.uri,
        ) + ">"@,
        p.params.len() == 0 && p.display == Some(display) ==> uri::party_text(p) == "\""@ + display
            + "\" "@ + "<"@ + uri::uri_text(p.uri) + ">"@,
        value.len() > 0 ==> uri::party_text(Party { params: p.params.push((name, value)), ..p })
            == uri::party_text(p) + ";"@ + name + "="@ + value,
{
    let none = Seq::<char>::empty();
    if p.params.len() == 0 {
        assert(uri::pairs_text(p.params) =~= none);
        if p.display.is_none() {
            assert(uri::party_text(p) =~= "<"@ + uri::uri_text(p.uri) + ">"@);
        }
        if p.display == Some(display) {
            assert(uri::party_text(p) =~= "\""@ + display + "\" "@ + "<"@ + uri::uri_text(p.uri)
                + ">"@);
        }
    }
    if value.len() > 0 {
        let with = p.params.push((name, value));
        assert(with.drop_last() =~= p.params);
        assert(uri::party_text(Party { params: with, ..p }) =~= uri::party_text(p) + ";"@ + name
            + "="@ + value);
    }
}

/// A hop is its protocol, where it is, and its parameters.
pub proof fn law_a_hop_is_written(v: Hop, port: u16, name: Seq<char>, value: Seq<char>)
    ensures
        v.params.len() == 0 && v.port == Some(port) ==> message::via_text(v) == v.protocol + " "@
            + v.host + ":"@ + text::dec(port as nat),
        v.params.len() == 0 && v.port.is_none() ==> message::via_text(v) == v.protocol + " "@
            + v.host,
        message::via_text(Hop { params: v.params.push((name, Some(value))), ..v })
            == message::via_text(v) + ";"@ + name + "="@ + value,
{
    let none = Seq::<char>::empty();
    if v.params.len() == 0 {
        assert(uri::params_text(v.params) =~= none);
        if v.port == Some(port) {
            assert(message::via_text(v) =~= v.protocol + " "@ + v.host + ":"@ + text::dec(
                port as nat,
            ));
        }
        if v.port.is_none() {
            assert(message::via_text(v) =~= v.protocol + " "@ + v.host);
        }
    }
    let with = v.params.push((name, Some(value)));
    assert(with.drop_last() =~= v.params);
    assert(message::via_text(Hop { params: with, ..v }) =~= message::via_text(v) + ";"@ + name
        + "="@ + value);
}

/// An address of the older family is its four octets in decimal, the highest first.
pub proof fn law_an_octet_address_is_written(a: u8, b: u8, c: u8, d: u8)
    ensures
        net::ip_text(IpAddr::V4((a * 0x100_0000 + b * 0x1_0000 + c * 0x100 + d) as u32)) == text::dec(
            a as nat,
        ) + "."@ + text::dec(b as nat) + "."@ + text::dec(c as nat) + "."@ + text::dec(d as nat),
{
    let n = (a * 0x100_0000 + b * 0x1_0000 + c * 0x100 + d) as nat;
    assert(n / 0x100_0000 == a);
    assert(n / 0x1_0000 == a * 0x100 + b);
    assert(n / 0x100 == a * 0x1_0000 + b * 0x100 + c);
    assert(n / 0x1_0000 % 256 == b);
    assert(n / 0x100 % 256 == c);
    assert(n % 256 == d);
}

// ------------------------------------------------------------------ messages

/// A request is its line, its headers and its body, with an empty line between the two and the length
/// of the body among the headers.
pub proof fn law_a_request_is_written(r: Asked)
    requires
        !message::has_ascii_control(uri::uri_text(r.uri)),
        !message::has_name(r.headers, "content-length"@),
    ensures
        message::request_bytes(r) == encode_utf8(
            message::method_text(r.method) + " "@ + uri::uri_text(r.uri) + " SIP/2.0"@ + "\r\n"@
                + message::field_lines(r.headers, r.body.len()) + ("Content-Length: "@ + text::dec(
                r.body.len(),
            ) + "\r\n"@) + "\r\n"@,
        ) + r.body,
{
    let line = message::request_line(r.method, r.uri);
    assert(!message::has_ascii_control(line)) by {
        let m = message::method_text(r.method);
        let u = uri::uri_text(r.uri);
        reveal_strlit(" ");
        reveal_strlit(" SIP/2.0");
        lemma_method_plain(r.method);
        assert forall|i: int| 0 <= i < line.len() implies !(line[i] < ' ' || line[i] == '\x7f') by {
            if i < m.len() {
                assert(line[i] == m[i]);
            } else if m.len() < i < m.len() + 1 + u.len() {
                assert(line[i] == u[i - m.len() - 1]);
            }
        }
    }
    message::law_a_clean_value_is_kept(line);
}

proof fn lemma_method_plain(m: message::Method)
    ensures
        forall|i: int|
            0 <= i < message::method_text(m).len() ==> 'A' <= #[trigger] message::method_text(m)[i]
                <= 'Z',
{
    reveal_strlit("INVITE");
    reveal_strlit("ACK");
    reveal_strlit("BYE");
    reveal_strlit("CANCEL");
    reveal_strlit("REGISTER");
    reveal_strlit("OPTIONS");
    reveal_strlit("INFO");
    reveal_strlit("MESSAGE");
    reveal_strlit("NOTIFY");
    reveal_strlit("SUBSCRIBE");
    reveal_strlit("UPDATE");
    reveal_strlit("PRACK");
    reveal_strlit("REFER");
}

/// A response is written in the same way behind its status line.
pub proof fn law_a_response_is_written(r: Answered)
    requires
        !message::has_ascii_control("SIP/2.0 "@ + text::dec(r.code as nat) + " "@ + r.reason),
        !message::has_name(r.headers, "content-length"@),
    ensures
        message::response_bytes(r) == encode_utf8(
            "SIP/2.0 "@ + text::dec(r.code as nat) + " "@ + r.reason + "\r\n"@ + message::field_lines(
                r.headers,
                r.body.len(),
            ) + ("Content-Length: "@ + text::dec(r.body.len()) + "\r\n"@) + "\r\n"@,
        ) + r.body,
{
    message::law_a_clean_value_is_kept(
        "SIP/2.0 "@ + text::dec(r.code as nat) + " "@ + r.reason,
    );
}

/// Every header is a line of its own, in its order: its name, a colon and its value as it is.
pub proof fn law_a_header_is_written(f: Fields, name: Seq<char>, value: Seq<char>, length: nat)
    requires
        name != "content-length"@,
        !message::has_ascii_control(value),
    ensures
        message::field_lines(seq![], length).len() == 0,
        message::field_lines(f.push((name, value)), length) == message::field_lines(f, length) + (
        message::pretty_name(name) + ": "@ + value + "\r\n"@),
{
    assert(f.push((name, value)).drop_last() =~= f);
    message::law_a_clean_value_is_kept(value);
}

/// However a name is written in full or in short, it names the same header.
pub proof fn law_short_names_are_names(f: Fields)
    ensures
        message::field(f, "i"@) == message::field(f, "call-id"@),
        message::field(f, "m"@) == message::field(f, "contact"@),
        message::field(f, "f"@) == message::field(f, "from"@),
        message::field(f, "t"@) == message::field(f, "to"@),
        message::field(f, "v"@) == message::field(f, "via"@),
        message::field(f, "c"@) == message::field(f, "content-type"@),
        message::field(f, "l"@) == message::field(f, "content-length"@),
{
    lemma_short_names();
    lemma_full_names();
}

proof fn lemma_full_names()
    ensures
        message::canonical_name("call-id"@) == "call-id"@,
        message::canonical_name("contact"@) == "contact"@,
        message::canonical_name("from"@) == "from"@,
        message::canonical_name("to"@) == "to"@,
        message::canonical_name("via"@) == "via"@,
        message::canonical_name("content-type"@) == "content-type"@,
        message::canonical_name("content-length"@) == "content-length"@,
{
    reveal_strlit("call-id");
    reveal_strlit("contact");
    reveal_strlit("from");
    reveal_strlit("to");
    reveal_strlit("via");
    reveal_strlit("content-type");
    reveal_strlit("content-length");
    assert(text::lower("call-id"@) =~= "call-id"@);
    assert(text::lower("contact"@) =~= "contact"@);
    assert(text::lower("from"@) =~= "from"@);
    assert(text::lower("to"@) =~= "to"@);
    assert(text::lower("via"@) =~= "via"@);
    assert(text::lower("content-type"@) =~= "content-type"@);
    assert(text::lower("content-length"@) =~= "content-length"@);
    message::lemma_plain_name("call-id"@);
    message::lemma_plain_name("contact"@);
    message::lemma_plain_name("from"@);
    message::lemma_plain_name("to"@);
    message::lemma_plain_name("via"@);
    message::lemma_plain_name("content-type"@);
    message::lemma_plain_name("content-length"@);
}

proof fn lemma_short_names()
    ensures
        message::canonical_name("i"@) == "call-id"@,
        message::canonical_name("m"@) == "contact"@,
        message::canonical_name("f"@) == "from"@,
        message::canonical_name("t"@) == "to"@,
        message::canonical_name("v"@) == "via"@,
        message::canonical_name("c"@) == "content-type"@,
        message::canonical_name("l"@) == "content-length"@,
{
    reveal_strlit("i");
    reveal_strlit("m");
    reveal_strlit("f");
    reveal_strlit("t");
    reveal_strlit("v");
    reveal_strlit("c");
    reveal_strlit("l");
    text::lemma_trimmed("i"@);
    text::lemma_trimmed("m"@);
    text::lemma_trimmed("f"@);
    text::lemma_trimmed("t"@);
    text::lemma_trimmed("v"@);
    text::lemma_trimmed("c"@);
    text::lemma_trimmed("l"@);
    assert(text::lower("i"@) =~= "i"@);
    assert(text::lower("m"@) =~= "m"@);
    assert(text::lower("f"@) =~= "f"@);
    assert(text::lower("t"@) =~= "t"@);
    assert(text::lower("v"@) =~= "v"@);
    assert(text::lower("c"@) =~= "c"@);
    assert(text::lower("l"@) =~= "l"@);
    assert("i"@[0] != "m"@[0] && "i"@[0] != "f"@[0]);
}

/// A line of a head is a header where it holds a colon: what stands in front of it is its name, and what
/// stands behind it, without white space around it, its value. Every such line counts, in its order.
pub proof fn law_a_header_line_is_read(lines: Seq<Seq<char>>, name: Seq<char>, value: Seq<char>)
    requires
        !name.contains(':'),
    ensures
        message::fields_of(seq![]).len() == 0,
        message::fields_of(lines.push(name + seq![':'] + value)) == message::fields_of(lines).push(
            (message::canonical_name(name), text::trim(value)),
        ),
        message::fields_of(lines.push(name)) == message::fields_of(lines),
{
    let line = name + seq![':'] + value;
    assert(lines.push(line).drop_last() =~= lines);
    assert(lines.push(name).drop_last() =~= lines);
    text::lemma_split_once_at(name, value, ':');
    text::lemma_split_once_none(name, ':');
}

/// A body is as long as its head says where there is that much of it; else it is all there is.
pub proof fn law_a_body_is_as_long_as_declared(f: Fields, body: Seq<u8>, n: nat)
    requires
        n <= usize::MAX,
    ensures
        message::field(f, "content-length"@).is_none() ==> message::declared_body(f, body) == body,
        message::field(f, "content-length"@) == Some(text::dec(n)) && n <= body.len()
            ==> message::declared_body(f, body) == body.take(n as int),
        message::field(f, "content-length"@) == Some(text::dec(n)) && n > body.len()
            ==> message::declared_body(f, body) == body,
{
    text::law_decimal_round_trip(n, usize::MAX as nat);
    text::lemma_dec_reads_back(n);
    let d = text::dec(n);
    assert(text::is_digit(d[0]) && text::is_digit(d[d.len() - 1]));
    text::lemma_trimmed(d);
}

/// The first line of a response is its status and the words for it; the first line of a request is its
/// method and its address; and a sequence is its number and its method.
pub proof fn law_a_first_line_is_read(
    code: u16,
    reason: Seq<char>,
    m: message::Method,
    target: Seq<char>,
    u: Address,
    n: u32,
)
    requires
        target.len() > 0,
        forall|i: int| 0 <= i < target.len() ==> !text::is_space(#[trigger] target[i]),
        uri::uri_of(target) == Some(u),
    ensures
        message::status_of("SIP/2.0"@ + seq![' '] + (text::dec(code as nat) + seq![' '] + reason))
            == Some((code, reason)),
        message::request_line_of(
            message::method_text(m) + (seq![' '] + (target + (seq![' '] + "SIP/2.0"@))),
        ) == Some((m, u)),
        message::cseq_of(text::dec(n as nat) + (seq![' '] + message::method_text(m))) == Some((n, m)),
{
    reveal_strlit("SIP/2.0");
    let d = text::dec(code as nat);
    text::lemma_dec_reads_back(code as nat);
    assert(!d.contains(' ')) by {
        assert forall|i: int| 0 <= i < d.len() implies d[i] != ' ' by {
            assert(text::is_digit(d[i]));
        }
    }
    assert(!"SIP/2.0"@.contains(' '));
    text::lemma_split_once_at("SIP/2.0"@, d + seq![' '] + reason, ' ');
    text::lemma_split_once_at(d, reason, ' ');
    text::law_decimal_round_trip(code as nat, 65535);
    let v = "SIP/2.0"@;
    wire::lemma_words_front(v, seq![]);
    assert(v + Seq::<char>::empty() =~= v);
    assert(text::words(Seq::<char>::empty()) =~= seq![]);
    wire::lemma_words_behind_space(v);
    wire::lemma_words_front(target, seq![' '] + v);
    let rest = target + (seq![' '] + v);
    wire::lemma_words_behind_space(rest);
    lemma_method_plain(m);
    let name = message::method_text(m);
    message::law_method_round_trip(m);
    lemma_method_there(m);
    assert forall|i: int| 0 <= i < name.len() implies !text::is_space(#[trigger] name[i]) by {
        assert('A' <= name[i] <= 'Z');
    }
    wire::lemma_words_front(name, seq![' '] + rest);
    let k = text::dec(n as nat);
    text::lemma_dec_reads_back(n as nat);
    text::law_decimal_round_trip(n as nat, 0xffff_ffff);
    assert forall|i: int| 0 <= i < k.len() implies !text::is_space(#[trigger] k[i]) by {
        assert(text::is_digit(k[i]));
    }
    wire::lemma_words_front(name, seq![]);
    assert(name + Seq::<char>::empty() =~= name);
    wire::lemma_words_behind_space(name);
    wire::lemma_words_front(k, seq![' '] + name);
}

proof fn lemma_method_there(m: message::Method)
    ensures
        message::method_text(m).len() > 0,
{
    reveal_strlit("INVITE");
    reveal_strlit("ACK");
    reveal_strlit("BYE");
    reveal_strlit("CANCEL");
    reveal_strlit("REGISTER");
    reveal_strlit("OPTIONS");
    reveal_strlit("INFO");
    reveal_strlit("MESSAGE");
    reveal_strlit("NOTIFY");
    reveal_strlit("SUBSCRIBE");
    reveal_strlit("UPDATE");
    reveal_strlit("PRACK");
    reveal_strlit("REFER");
}

/// A line that begins with a blank goes on with the one before it.
pub proof fn law_a_folded_line_goes_on(lines: Seq<Seq<char>>, rest: Seq<char>)
    requires
        message::unfolded(lines).len() > 0,
    ensures
        message::unfolded(lines.push(seq![' '] + rest)) == message::unfolded(
            lines,
        ).drop_last().push(message::unfolded(lines).last() + seq![' '] + text::trim_start(rest)),
        rest.len() > 0 && rest[0] != ' ' && rest[0] != '\t' ==> message::unfolded(lines.push(rest))
            == message::unfolded(lines).push(rest),
{
    let l = seq![' '] + rest;
    assert(lines.push(l).drop_last() =~= lines);
    assert(lines.push(rest).drop_last() =~= lines);
    assert(l.skip(1) =~= rest);
    assert(text::is_space(' '));
    assert(text::trim_start(l) == text::trim_start(rest));
}

// ------------------------------------------------------------------ descriptions

/// A description is its lines: the version, who made it, its name, where its media are, its time,
/// the medium with its port and payload types, and what each of these means; then how much a packet
/// holds and which way the media go.
pub proof fn law_a_description_is_written(s: Session, address: Seq<char>)
    requires
        address == (if s.address is V6 {
            "IP6"@
        } else {
            "IP4"@
        }) + " "@ + net::ip_text(s.address),
    ensures
        sdp::session_text(s) == "v=0\r\no="@ + s.origin_user + " "@ + text::dec(s.session_id as nat)
            + " "@ + text::dec(s.session_version as nat) + " IN "@ + address
            + "\r\ns=modem2sip\r\nc=IN "@ + address + "\r\nt=0 0\r\nm=audio "@ + text::dec(
            s.port as nat,
        ) + " RTP/AVP "@ + sdp::numbers_text(
            match s.telephone_event {
                Some(t) => s.payload_types.push(t),
                None => s.payload_types,
            },
        ) + "\r\n"@ + sdp::rtpmaps_text(s.payload_types) + (match s.telephone_event {
            Some(t) => "a=rtpmap:"@ + text::dec(t as nat) + " telephone-event/8000\r\na=fmtp:"@
                + text::dec(t as nat) + " 0-16\r\n"@,
            None => seq![],
        }) + (match s.ptime {
            Some(n) => "a=ptime:"@ + text::dec(n as nat) + "\r\n"@,
            None => seq![],
        }) + "a="@ + (match s.sendrecv {
            Direction::SendRecv => "sendrecv"@,
            Direction::SendOnly => "sendonly"@,
            Direction::RecvOnly => "recvonly"@,
            Direction::Inactive => "inactive"@,
        }) + "\r\n"@,
{
    let fam = sdp::family_text(s.address);
    let ip = net::ip_text(s.address);
    let a = "v=0\r\no="@ + s.origin_user + " "@ + text::dec(s.session_id as nat) + " "@ + text::dec(
        s.session_version as nat,
    ) + " IN "@;
    let b = "\r\ns=modem2sip\r\nc=IN "@;
    assert(a + fam + " "@ + ip =~= a + (fam + " "@ + ip));
    let c = a + (fam + " "@ + ip) + b;
    assert(c + fam + " "@ + ip =~= c + (fam + " "@ + ip));
}

/// The payload types stand in their order with spaces between them, and those that this side codes are
/// named.
pub proof fn law_payload_types_are_written(v: Seq<u8>, x: u8)
    ensures
        sdp::numbers_text(seq![x]) == text::dec(x as nat),
        v.len() > 0 ==> sdp::numbers_text(v.push(x)) == sdp::numbers_text(v) + " "@ + text::dec(
            x as nat,
        ),
        sdp::rtpmaps_text(v.push(0)) == sdp::rtpmaps_text(v) + ("a=rtpmap:"@ + text::dec(0) + " "@
            + "PCMU/8000"@ + "\r\n"@),
        sdp::rtpmaps_text(v.push(8)) == sdp::rtpmaps_text(v) + ("a=rtpmap:"@ + text::dec(8) + " "@
            + "PCMA/8000"@ + "\r\n"@),
        x != 0 && x != 8 ==> sdp::rtpmaps_text(v.push(x)) == sdp::rtpmaps_text(v),
{
    assert(v.push(x).drop_last() =~= v);
    assert(v.push(0u8).drop_last() =~= v);
    assert(v.push(8u8).drop_last() =~= v);
    assert(sdp::rtpmaps_text(v) + Seq::<char>::empty() =~= sdp::rtpmaps_text(v));
}

/// A connection line in front of the media is where all media are; one behind a medium is where that
/// medium is, and that is what counts for it.
pub proof fn law_a_connection_line_is_read(a: IpAddr, p: Progress)
    ensures
        ({
            let line = "c="@ + ("IN"@ + seq![' '] + (sdp::family_text(a) + seq![' '] + net::ip_text(a)));
            &&& !p.seen_media ==> sdp::line_read(line, p) == (Progress { address: Some(a), ..p })
            &&& p.seen_media && p.in_audio ==> sdp::line_read(line, p) == (Progress {
                media_address: Some(a),
                ..p
            })
            &&& p.seen_media && !p.in_audio ==> sdp::line_read(line, p) == p
        }),
{
    reveal_strlit("c=");
    reveal_strlit("c");
    reveal_strlit("IN");
    reveal_strlit("IP4");
    reveal_strlit("IP6");
    let ip = net::ip_text(a);
    let fam = sdp::family_text(a);
    let value = "IN"@ + seq![' '] + (fam + seq![' '] + ip);
    let line = "c="@ + value;
    net::lemma_address_plain(a, '\r');
    net::lemma_address_plain(a, '/');
    assert(text::is_space('\r'));
    assert(ip.contains(ip.last()));
    assert(line.last() == ip.last());
    assert(text::strip_end(line, '\r') == line);
    assert(line =~= "c"@ + seq!['='] + value);
    assert(!"c"@.contains('='));
    text::lemma_split_once_at("c"@, value, '=');
    assert forall|i: int| 0 <= i < ip.len() implies !text::is_space(#[trigger] ip[i]) by {
        if text::is_space(ip[i]) {
            net::lemma_address_plain(a, ip[i]);
            assert(ip.contains(ip[i]));
        }
    }
    wire::lemma_words_front(ip, seq![]);
    assert(ip + Seq::<char>::empty() =~= ip);
    assert(text::words(Seq::<char>::empty()) =~= seq![]);
    wire::lemma_words_behind_space(ip);
    wire::lemma_words_front(fam, seq![' '] + ip);
    assert(fam + (seq![' '] + ip) =~= fam + seq![' '] + ip);
    let two = fam + seq![' '] + ip;
    wire::lemma_words_behind_space(two);
    wire::lemma_words_front("IN"@, seq![' '] + two);
    assert("IN"@ + (seq![' '] + two) =~= value);
    text::lemma_split_once_none(ip, '/');
    assert(ip.take(ip.len() as int) =~= ip);
    net::law_an_address_reads_back(a);
}

/// What a description says of its media is what was read of them: the address of the medium before
/// that of all media, the port, the payload types, the events and the direction.
pub proof fn law_a_medium_comes_before_the_whole(s: Seq<char>, p: Progress)
    requires
        sdp::lines_read(text::lines(s)) == p,
    ensures
        p.payload_types.len() == 0 ==> sdp::session_of(s).is_none(),
        p.payload_types.len() > 0 ==> (sdp::session_of(s) matches Some(r) && {
            &&& p.media_address matches Some(a) ==> r.address == a
            &&& p.media_address.is_none() ==> (p.address matches Some(a) ==> r.address == a)
            &&& p.media_address.is_none() && p.address.is_none() ==> r.address == IpAddr::V4(0)
            &&& r.port == p.port
            &&& r.payload_types == p.payload_types
            &&& r.telephone_event == p.telephone_event
            &&& r.ptime == p.ptime
            &&& r.sendrecv == p.direction
        }),
{
}

// ------------------------------------------------------------------ credentials

/// The answer to a challenge is the one of RFC 2617: the digest of the digest of who asks, the nonce,
/// and the digest of what is asked for; with a quality of protection also the count, the client's nonce
/// and that quality.
pub proof fn law_an_answer_is_the_standard_one(
    username: Seq<char>,
    password: Seq<char>,
    realm: Seq<char>,
    nonce: Seq<char>,
    method: Seq<char>,
    target: Seq<char>,
    cnonce: Seq<char>,
    nc: Seq<char>,
    body: Seq<u8>,
)
    ensures
        ({
            let who = auth::md5_text(encode_utf8(username + ":"@ + realm + ":"@ + password));
            let what = auth::md5_text(encode_utf8(method + ":"@ + target));
            let whole = auth::md5_text(
                encode_utf8(method + ":"@ + target + ":"@ + auth::md5_text(body)),
            );
            let session = auth::md5_text(encode_utf8(who + ":"@ + nonce + ":"@ + cnonce));
            &&& auth::response_of(
                username,
                password,
                realm,
                nonce,
                method,
                target,
                None,
                None,
                None,
                None,
                body,
            ) == auth::md5_text(encode_utf8(who + ":"@ + nonce + ":"@ + what))
            &&& auth::response_of(
                username,
                password,
                realm,
                nonce,
                method,
                target,
                Some("auth"@),
                Some(cnonce),
                Some(nc),
                Some("MD5"@),
                body,
            ) == auth::md5_text(
                encode_utf8(
                    who + ":"@ + nonce + ":"@ + nc + ":"@ + cnonce + ":"@ + "auth"@ + ":"@ + what,
                ),
            )
            &&& auth::response_of(
                username,
                password,
                realm,
                nonce,
                method,
                target,
                Some("auth-int"@),
                Some(cnonce),
                Some(nc),
                Some("MD5"@),
                body,
            ) == auth::md5_text(
                encode_utf8(
                    who + ":"@ + nonce + ":"@ + nc + ":"@ + cnonce + ":"@ + "auth-int"@ + ":"@
                        + whole,
                ),
            )
            &&& auth::response_of(
                username,
                password,
                realm,
                nonce,
                method,
                target,
                Some("auth"@),
                Some(cnonce),
                Some(nc),
                Some("MD5-sess"@),
                body,
            ) == auth::md5_text(
                encode_utf8(
                    session + ":"@ + nonce + ":"@ + nc + ":"@ + cnonce + ":"@ + "auth"@ + ":"@ + what,
                ),
            )
        }),
{
    reveal_strlit("auth");
    reveal_strlit("auth-int");
    reveal_strlit("MD5");
    reveal_strlit("MD5-sess");
    assert(text::lower("auth"@).len() != text::lower("auth-int"@).len());
    assert(text::lower("MD5"@).len() != text::lower("MD5-sess"@).len());
}

/// A name that stands before the angle bracket without quotation marks is read too, without the white
/// space behind it; where there is none, nobody is named.
pub proof fn law_a_plain_display_name_is_read(d: Seq<char>, rest: Seq<char>, p: uri::Party)
    requires
        d.len() > 0,
        text::is_trimmed(d),
        d[0] != '"',
        !d.contains('<'),
        rest.len() > 0,
        rest[0] == '<',
        text::is_trimmed(rest),
        uri::party_of(rest) == Some(p),
    ensures
        p.display.is_none(),
        uri::party_of(d + (seq![' '] + rest)) == Some(uri::Party { display: Some(d), ..p }),
{
    let s = d + (seq![' '] + rest);
    text::lemma_trimmed(rest);
    assert(s[0] == d[0] && s.last() == rest.last());
    assert(text::is_trimmed(s));
    text::lemma_trimmed(s);
    assert(text::find(rest, '<') == 0);
    assert(rest.take(0) =~= Seq::<char>::empty());
    assert(rest.skip(0) =~= rest);
    text::lemma_trimmed(Seq::<char>::empty());
    let open = d.len() as int + 1;
    assert(s[open] == '<');
    assert forall|j: int| 0 <= j < open implies s[j] != '<' by {
        if j < d.len() {
            assert(d.contains(d[j]));
        }
    }
    text::lemma_find_unique(s, '<', open);
    assert(s.skip(open) =~= rest);
    assert(s.take(open) =~= d.push(' '));
    assert(text::trim_start(d.push(' ')) == d.push(' '));
    assert(d.push(' ').drop_last() =~= d);
    assert(text::trim_end(d.push(' ')) == text::trim_end(d));
    assert(text::trim_end(d) == d);
}

} // verus!
