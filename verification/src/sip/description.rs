//! Session descriptions on the wire: what a peer reads of a description that is sent.
use vstd::prelude::*;

use crate::net;
use crate::sip::sdp;
use crate::sip::sdp::{Direction, Progress, Session};
use crate::sip::wire;
use crate::text;

verus! {

// ------------------------------------------------------------------ lines

proof fn lemma_lines_concat(a: Seq<Seq<char>>, b: Seq<Seq<char>>)
    ensures
        wire::lines_text(a + b) == wire::lines_text(a) + wire::lines_text(b),
    decreases b.len(),
{
    if b.len() == 0 {
        assert(a + b =~= a);
        assert(wire::lines_text(a + b) =~= wire::lines_text(a) + wire::lines_text(b));
    } else {
        lemma_lines_concat(a, b.drop_last());
        assert((a + b).drop_last() =~= a + b.drop_last());
        assert(wire::lines_text(a + b) =~= wire::lines_text(a) + wire::lines_text(b));
    }
}

/// Lines that hold no line end.
pub open spec fn plain_lines(lines: Seq<Seq<char>>) -> bool {
    forall|i: int| 0 <= i < lines.len() ==> !(#[trigger] lines[i]).contains('\n')
}

proof fn lemma_plain_concat(a: Seq<Seq<char>>, b: Seq<Seq<char>>)
    requires
        plain_lines(a),
        plain_lines(b),
    ensures
        plain_lines(a + b),
{
    assert forall|i: int| 0 <= i < (a + b).len() implies !(#[trigger] (a + b)[i]).contains('\n') by {
        if i < a.len() {
            assert((a + b)[i] == a[i]);
        } else {
            assert((a + b)[i] == b[i - a.len()]);
        }
    }
}

proof fn lemma_lines_apart(lines: Seq<Seq<char>>)
    requires
        plain_lines(lines),
    ensures
        text::lines(wire::lines_text(lines)) == lines,
    decreases lines.len(),
{
    let s = wire::lines_text(lines);
    if lines.len() == 0 {
        assert(text::lines(s) =~= lines);
    } else {
        let first = lines[0];
        let rest = lines.skip(1);
        assert forall|i: int| 0 <= i < rest.len() implies !(#[trigger] rest[i]).contains('\n') by {
            assert(rest[i] == lines[i + 1]);
        }
        lemma_lines_apart(rest);
        assert(lines =~= seq![first] + rest);
        wire::lemma_lines_front(first, rest);
        let head = first.push('\r');
        let tail = wire::lines_text(rest);
        assert(s =~= head + seq!['\n'] + tail);
        assert(!head.contains('\n')) by {
            if head.contains('\n') {
                let i = choose|i: int| 0 <= i < head.len() && head[i] == '\n';
                assert(first[i] == '\n');
            }
        }
        text::lemma_split_once_at(head, tail, '\n');
        text::lemma_find(s, '\n');
        assert(head.drop_last() =~= first);
        assert(text::lines(s) =~= lines);
    }
}

/// A line `key=value` is taken apart at the equals sign.
proof fn lemma_line_apart(key: char, value: Seq<char>)
    requires
        key != '=',
        value.len() > 0 ==> value.last() != '\r',
    ensures
        text::split_once(text::strip_end(seq![key, '='] + value, '\r'), '=') == Some(
            (seq![key], value),
        ),
{
    let l = seq![key, '='] + value;
    assert(l.last() != '\r');
    assert(l =~= seq![key] + seq!['='] + value);
    text::lemma_split_once_at(seq![key], value, '=');
}

// ------------------------------------------------------------------ the lines of a description

pub open spec fn origin_line(s: Session) -> Seq<char> {
    seq!['o', '='] + (s.origin_user + " "@ + text::dec(s.session_id as nat) + " "@ + text::dec(
        s.session_version as nat,
    ) + " IN "@ + sdp::family_text(s.address) + " "@ + net::ip_text(s.address))
}

pub open spec fn connection_line(s: Session) -> Seq<char> {
    seq!['c', '='] + ("IN "@ + sdp::family_text(s.address) + " "@ + net::ip_text(s.address))
}

pub open spec fn media_line(s: Session) -> Seq<char> {
    seq!['m', '='] + ("audio "@ + text::dec(s.port as nat) + " RTP/AVP "@ + sdp::numbers_text(
        sdp::all_types(s),
    ))
}

pub open spec fn head_lines(s: Session) -> Seq<Seq<char>> {
    seq![
        "v=0"@,
        origin_line(s),
        "s=modem2sip"@,
        connection_line(s),
        "t=0 0"@,
        media_line(s),
    ]
}

pub open spec fn map_line(pt: u8, name: Seq<char>) -> Seq<char> {
    seq!['a', '='] + ("rtpmap:"@ + text::dec(pt as nat) + " "@ + name)
}

pub open spec fn map_lines(pts: Seq<u8>) -> Seq<Seq<char>>
    decreases pts.len(),
{
    if pts.len() == 0 {
        seq![]
    } else {
        match sdp::codec_of(pts.last()) {
            Some(c) => map_lines(pts.drop_last()).push(map_line(pts.last(), sdp::codec_name(c))),
            None => map_lines(pts.drop_last()),
        }
    }
}

pub open spec fn format_line(te: u8) -> Seq<char> {
    seq!['a', '='] + ("fmtp:"@ + text::dec(te as nat) + " 0-16"@)
}

pub open spec fn event_lines(t: Option<u8>) -> Seq<Seq<char>> {
    match t {
        Some(te) => seq![map_line(te, "telephone-event/8000"@), format_line(te)],
        None => seq![],
    }
}

pub open spec fn time_lines(t: Option<u32>) -> Seq<Seq<char>> {
    match t {
        Some(n) => seq![seq!['a', '='] + ("ptime:"@ + text::dec(n as nat))],
        None => seq![],
    }
}

pub open spec fn direction_line(d: Direction) -> Seq<char> {
    seq!['a', '='] + sdp::direction_name(d)
}

pub open spec fn session_lines(s: Session) -> Seq<Seq<char>> {
    head_lines(s) + map_lines(s.payload_types) + event_lines(s.telephone_event) + time_lines(
        s.ptime,
    ) + seq![direction_line(s.sendrecv)]
}

/// The text of lines with one more.
proof fn lemma_one_more(t: Seq<char>, lines: Seq<Seq<char>>, l: Seq<char>)
    requires
        t == wire::lines_text(lines),
    ensures
        t + l + seq!['\r', '\n'] == wire::lines_text(lines.push(l)),
{
    assert(lines.push(l).drop_last() =~= lines);
}

proof fn lemma_assoc(p: Seq<char>, q: Seq<char>, r: Seq<char>)
    ensures
        p + q + r == p + (q + r),
{
    assert(p + q + r =~= p + (q + r));
}

/// Text behind a text, put on piece by piece or at once.
proof fn lemma_four_behind(l: Seq<char>, a: Seq<char>, b: Seq<char>, c: Seq<char>, d: Seq<char>)
    ensures
        l + a + b + c + d == l + (a + b + c + d),
{
    lemma_assoc(l, a, b);
    lemma_assoc(l, a + b, c);
    lemma_assoc(l, a + b + c, d);
}

proof fn lemma_head_literals()
    ensures
        "v=0\r\no="@ == "v=0"@ + seq!['\r', '\n'] + seq!['o', '='],
        "\r\ns=modem2sip\r\nc=IN "@ == seq!['\r', '\n'] + "s=modem2sip"@ + seq!['\r', '\n'] + seq![
            'c',
            '=',
        ] + "IN "@,
        "\r\nt=0 0\r\nm=audio "@ == seq!['\r', '\n'] + "t=0 0"@ + seq!['\r', '\n'] + seq![
            'm',
            '=',
        ] + "audio "@,
        "\r\n"@ == seq!['\r', '\n'],
{
    reveal_strlit("\r\n");
    reveal_strlit("v=0\r\no=");
    reveal_strlit("v=0");
    reveal_strlit("\r\ns=modem2sip\r\nc=IN ");
    reveal_strlit("s=modem2sip");
    reveal_strlit("IN ");
    reveal_strlit("\r\nt=0 0\r\nm=audio ");
    reveal_strlit("t=0 0");
    reveal_strlit("audio ");
    assert("v=0\r\no="@ =~= "v=0"@ + seq!['\r', '\n'] + seq!['o', '=']);
    assert("\r\ns=modem2sip\r\nc=IN "@ =~= seq!['\r', '\n'] + "s=modem2sip"@ + seq!['\r', '\n']
        + seq!['c', '='] + "IN "@);
    assert("\r\nt=0 0\r\nm=audio "@ =~= seq!['\r', '\n'] + "t=0 0"@ + seq!['\r', '\n'] + seq![
        'm',
        '=',
    ] + "audio "@);
    assert("\r\n"@ =~= seq!['\r', '\n']);
}

/// The text up to the end of the origin.
proof fn lemma_origin_text(s: Session)
    ensures
        "v=0\r\no="@ + s.origin_user + " "@ + text::dec(s.session_id as nat) + " "@ + text::dec(
            s.session_version as nat,
        ) + " IN "@ + sdp::family_text(s.address) + " "@ + net::ip_text(s.address) == "v=0"@ + seq![
            '\r',
            '\n',
        ] + origin_line(s),
{
    lemma_head_literals();
    let l = "v=0\r\no="@;
    let u = s.origin_user;
    let i = text::dec(s.session_id as nat);
    let v = text::dec(s.session_version as nat);
    lemma_four_behind(l, u, " "@, i, " "@);
    let w = u + " "@ + i + " "@;
    let f = sdp::family_text(s.address);
    lemma_four_behind(l, w, v, " IN "@, f);
    let x = w + v + " IN "@ + f;
    lemma_assoc(l, x, " "@);
    lemma_assoc(l, x + " "@, net::ip_text(s.address));
    lemma_assoc("v=0"@ + seq!['\r', '\n'], seq!['o', '='], x + " "@ + net::ip_text(s.address));
}

/// A literal `CR LF l CR LF k word`, and a rest, behind a line.
proof fn lemma_line_and_start(
    t: Seq<char>,
    l: Seq<char>,
    k: Seq<char>,
    word: Seq<char>,
    rest: Seq<char>,
)
    ensures
        t + (seq!['\r', '\n'] + l + seq!['\r', '\n'] + k + word) + rest == t + seq!['\r', '\n'] + l
            + seq!['\r', '\n'] + (k + (word + rest)),
{
    let c = seq!['\r', '\n'];
    lemma_four_behind(t, c, l, c, k);
    lemma_assoc(t, c + l + c + k, word);
    let y = t + c + l + c;
    lemma_assoc(y, k, word);
    lemma_assoc(y, k + word, rest);
    lemma_assoc(k, word, rest);
}

proof fn lemma_head_text(s: Session)
    ensures
        sdp::session_head(s) + sdp::numbers_text(sdp::all_types(s)) + "\r\n"@ == wire::lines_text(
            head_lines(s),
        ),
{
    let crlf = seq!['\r', '\n'];
    let fam = sdp::family_text(s.address);
    let ip = net::ip_text(s.address);
    let nums = sdp::numbers_text(sdp::all_types(s));
    let port = text::dec(s.port as nat);
    lemma_head_literals();
    lemma_origin_text(s);
    let l0 = "v=0"@;
    let l2 = "s=modem2sip"@;
    let l4 = "t=0 0"@;
    // One line after another.
    lemma_single(l0);
    let t1 = l0 + crlf;
    let p1 = seq![l0];
    lemma_one_more(t1, p1, origin_line(s));
    let t2 = t1 + origin_line(s) + crlf;
    let p2 = p1.push(origin_line(s));
    lemma_one_more(t2, p2, l2);
    let t3 = t2 + l2 + crlf;
    let p3 = p2.push(l2);
    lemma_one_more(t3, p3, connection_line(s));
    let t4 = t3 + connection_line(s) + crlf;
    let p4 = p3.push(connection_line(s));
    lemma_one_more(t4, p4, l4);
    let t5 = t4 + l4 + crlf;
    let p5 = p4.push(l4);
    lemma_one_more(t5, p5, media_line(s));
    // The text, put on piece by piece.
    let u1 = t1 + origin_line(s);
    let c = "\r\ns=modem2sip\r\nc=IN "@;
    lemma_assoc(u1 + c, fam, " "@);
    lemma_assoc(u1 + c, fam + " "@, ip);
    lemma_line_and_start(u1, l2, seq!['c', '='], "IN "@, fam + " "@ + ip);
    lemma_assoc("IN "@, fam, " "@);
    lemma_assoc("IN "@, fam + " "@, ip);
    let u2 = u1 + c + fam + " "@ + ip;
    assert(u2 == t3 + connection_line(s));
    let m = "\r\nt=0 0\r\nm=audio "@;
    lemma_assoc(u2 + m, port, " RTP/AVP "@);
    lemma_assoc(u2 + m, port + " RTP/AVP "@, nums);
    lemma_line_and_start(u2, l4, seq!['m', '='], "audio "@, port + " RTP/AVP "@ + nums);
    lemma_assoc("audio "@, port, " RTP/AVP "@);
    lemma_assoc("audio "@, port + " RTP/AVP "@, nums);
    let u3 = u2 + m + port + " RTP/AVP "@;
    assert(u3 == sdp::session_head(s));
    assert(u3 + nums == t5 + media_line(s));
    assert(p5.push(media_line(s)) =~= head_lines(s));
}

proof fn lemma_maps_text(pts: Seq<u8>)
    ensures
        sdp::rtpmaps_text(pts) == wire::lines_text(map_lines(pts)),
    decreases pts.len(),
{
    if pts.len() > 0 {
        lemma_maps_text(pts.drop_last());
        if let Some(c) = sdp::codec_of(pts.last()) {
            let name = sdp::codec_name(c);
            let l = map_line(pts.last(), name);
            assert("a=rtpmap:"@ + text::dec(pts.last() as nat) + " "@ + name + "\r\n"@ =~= l + seq![
                '\r',
                '\n',
            ]) by {
                reveal_strlit("a=rtpmap:");
                reveal_strlit("rtpmap:");
                reveal_strlit("\r\n");
            }
            lemma_one_more(
                sdp::rtpmaps_text(pts.drop_last()),
                map_lines(pts.drop_last()),
                l,
            );
            assert(sdp::rtpmaps_text(pts) =~= sdp::rtpmaps_text(pts.drop_last()) + l + seq![
                '\r',
                '\n',
            ]);
        } else {
            assert(sdp::rtpmaps_text(pts) =~= sdp::rtpmaps_text(pts.drop_last()));
        }
    }
}

proof fn lemma_single(l: Seq<char>)
    ensures
        wire::lines_text(seq![l]) == l + seq!['\r', '\n'],
{
    assert(seq![l].drop_last() =~= seq![]);
    assert(wire::lines_text(Seq::<Seq<char>>::empty()) =~= seq![]);
    assert(wire::lines_text(seq![l]) =~= l + seq!['\r', '\n']);
}

proof fn lemma_events_text(t: Option<u8>)
    ensures
        sdp::events_text(t) == wire::lines_text(event_lines(t)),
{
    if let Some(te) = t {
        let a = map_line(te, "telephone-event/8000"@);
        let b = format_line(te);
        lemma_single(a);
        lemma_one_more(wire::lines_text(seq![a]), seq![a], b);
        assert(seq![a].push(b) =~= event_lines(t));
        let d = text::dec(te as nat);
        reveal_strlit("a=rtpmap:");
        reveal_strlit("rtpmap:");
        reveal_strlit(" ");
        reveal_strlit("fmtp:");
        reveal_strlit(" 0-16");
        reveal_strlit(" 0-16\r\n");
        reveal_strlit("telephone-event/8000");
        reveal_strlit(" telephone-event/8000\r\na=fmtp:");
        assert(" telephone-event/8000\r\na=fmtp:"@ =~= " "@ + "telephone-event/8000"@ + seq![
            '\r',
            '\n',
            'a',
            '=',
        ] + "fmtp:"@);
        assert(sdp::events_text(t) =~= a + seq!['\r', '\n'] + b + seq!['\r', '\n']);
    }
}

proof fn lemma_time_text(t: Option<u32>)
    ensures
        sdp::ptime_text(t) == wire::lines_text(time_lines(t)),
{
    if let Some(n) = t {
        let l = seq!['a', '='] + ("ptime:"@ + text::dec(n as nat));
        lemma_single(l);
        reveal_strlit("a=ptime:");
        reveal_strlit("ptime:");
        reveal_strlit("\r\n");
        assert(sdp::ptime_text(t) =~= l + seq!['\r', '\n']);
    }
}

proof fn lemma_session_text(s: Session)
    ensures
        sdp::session_text(s) == wire::lines_text(session_lines(s)),
{
    let h = head_lines(s);
    let m = map_lines(s.payload_types);
    let e = event_lines(s.telephone_event);
    let t = time_lines(s.ptime);
    let d = seq![direction_line(s.sendrecv)];
    lemma_head_text(s);
    lemma_maps_text(s.payload_types);
    lemma_events_text(s.telephone_event);
    lemma_time_text(s.ptime);
    lemma_single(direction_line(s.sendrecv));
    lemma_lines_concat(h, m);
    lemma_lines_concat(h + m, e);
    lemma_lines_concat(h + m + e, t);
    lemma_lines_concat(h + m + e + t, d);
    reveal_strlit("a=");
    reveal_strlit("\r\n");
    assert("a="@ =~= seq!['a', '=']);
    assert("\r\n"@ =~= seq!['\r', '\n']);
    let before = wire::lines_text(h + m + e + t);
    let name = sdp::direction_name(s.sendrecv);
    assert(before + "a="@ + name + "\r\n"@ =~= before + wire::lines_text(d));
}


// ------------------------------------------------------------------ reading

proof fn lemma_read_push(lines: Seq<Seq<char>>, l: Seq<char>)
    ensures
        sdp::lines_read(lines.push(l)) == sdp::line_read(l, sdp::lines_read(lines)),
{
    assert(lines.push(l).drop_last() =~= lines);
}

proof fn lemma_keys()
    ensures
        "c"@ == seq!['c'],
        "m"@ == seq!['m'],
        "a"@ == seq!['a'],
{
    reveal_strlit("c");
    reveal_strlit("m");
    reveal_strlit("a");
    assert("c"@ =~= seq!['c']);
    assert("m"@ =~= seq!['m']);
    assert("a"@ =~= seq!['a']);
}

proof fn lemma_other_line(key: char, value: Seq<char>, p: Progress)
    requires
        key != '=' && key != 'c' && key != 'm' && key != 'a',
        value.len() > 0 ==> value.last() != '\r',
    ensures
        sdp::line_read(seq![key, '='] + value, p) == p,
{
    lemma_keys();
    lemma_line_apart(key, value);
    assert(seq![key][0] == key);
    assert(seq!['c'][0] == 'c' && seq!['m'][0] == 'm' && seq!['a'][0] == 'a');
}

proof fn lemma_digits(n: nat)
    ensures
        text::dec(n).len() > 0,
        forall|i: int|
            0 <= i < text::dec(n).len() ==> !text::is_space(#[trigger] text::dec(n)[i])
                && text::dec(n)[i] != '\r' && text::dec(n)[i] != '\n',
{
    text::lemma_dec_reads_back(n);
    assert forall|i: int| 0 <= i < text::dec(n).len() implies !text::is_space(
        #[trigger] text::dec(n)[i],
    ) && text::dec(n)[i] != '\r' && text::dec(n)[i] != '\n' by {
        assert(text::is_digit(text::dec(n)[i]));
    }
}

proof fn lemma_spaces()
    ensures
        text::is_space(' '),
        text::is_space('\r'),
        text::is_space('\n'),
{
}

proof fn lemma_words_end(w: Seq<char>)
    requires
        w.len() > 0,
        forall|i: int| 0 <= i < w.len() ==> !text::is_space(#[trigger] w[i]),
    ensures
        text::words(w) == seq![w],
{
    let none = Seq::<char>::empty();
    wire::lemma_words_front(w, none);
    assert(w + none =~= w);
    assert(text::trim_start(none) == none);
    assert(text::words(none) =~= seq![]);
    assert(seq![w] + Seq::<Seq<char>>::empty() =~= seq![w]);
}

proof fn lemma_word_then(w: Seq<char>, rest: Seq<char>)
    requires
        w.len() > 0,
        forall|i: int| 0 <= i < w.len() ==> !text::is_space(#[trigger] w[i]),
    ensures
        text::words(w + (seq![' '] + rest)) == seq![w] + text::words(rest),
{
    lemma_spaces();
    wire::lemma_words_front(w, seq![' '] + rest);
    wire::lemma_words_behind_space(rest);
}

proof fn lemma_family(a: net::IpAddr)
    ensures
        sdp::family_text(a).len() > 0,
        forall|i: int|
            0 <= i < sdp::family_text(a).len() ==> !text::is_space(
                #[trigger] sdp::family_text(a)[i],
            ),
{
    reveal_strlit("IP6");
    reveal_strlit("IP4");
}

proof fn lemma_address(a: net::IpAddr)
    ensures
        net::ip_text(a).len() > 0,
        forall|i: int| 0 <= i < net::ip_text(a).len() ==> !text::is_space(#[trigger] net::ip_text(a)[i]),
        !net::ip_text(a).contains('\n'),
        net::ip_text(a).last() != '\r',
        sdp::connection_ip(net::ip_text(a)) == Some(a),
{
    let t = net::ip_text(a);
    lemma_spaces();
    net::lemma_address_plain(a, '/');
    assert forall|i: int| 0 <= i < t.len() implies !text::is_space(#[trigger] t[i]) by {
        if text::is_space(t[i]) {
            net::lemma_address_plain(a, t[i]);
            assert(t.contains(t[i]));
        }
    }
    text::lemma_split_once_none(t, '/');
    assert(t.take(t.len() as int) =~= t);
    net::law_an_address_reads_back(a);
}

proof fn lemma_connection_read(s: Session, p: Progress)
    requires
        !p.seen_media,
    ensures
        sdp::line_read(connection_line(s), p) == (Progress { address: Some(s.address), ..p }),
        !connection_line(s).contains('\n'),
{
    let fam = sdp::family_text(s.address);
    let ip = net::ip_text(s.address);
    let v = "IN "@ + fam + " "@ + ip;
    lemma_keys();
    lemma_spaces();
    lemma_family(s.address);
    lemma_address(s.address);
    reveal_strlit("IN ");
    reveal_strlit(" ");
    assert(v.last() == ip.last());
    lemma_line_apart('c', v);
    let w = seq!['I', 'N'];
    assert(v =~= w + (seq![' '] + (fam + (seq![' '] + ip))));
    lemma_word_then(w, fam + (seq![' '] + ip));
    lemma_word_then(fam, ip);
    lemma_words_end(ip);
    assert(text::words(v) =~= seq![w, fam, ip]);
    assert(seq!['c'][0] == 'c' && seq!['m'][0] == 'm');
    let l = connection_line(s);
    assert forall|i: int| 0 <= i < l.len() implies l[i] != '\n' by {
        if i >= 5 && i < 5 + fam.len() {
            assert(l[i] == fam[i - 5]);
        } else if i > 5 + fam.len() {
            assert(l[i] == ip[i - 6 - fam.len()]);
        }
    }
}

proof fn lemma_numbers(v: Seq<u8>)
    requires
        v.len() > 0,
    ensures
        sdp::numbers_text(v) == text::join(number_parts(v), seq![' ']),
    decreases v.len(),
{
    reveal_strlit(" ");
    assert(" "@ =~= seq![' ']);
    if v.len() > 1 {
        lemma_numbers(v.drop_last());
        assert(number_parts(v).drop_last() =~= number_parts(v.drop_last()));
    }
}

spec fn number_parts(v: Seq<u8>) -> Seq<Seq<char>> {
    Seq::new(v.len(), |i: int| text::dec(v[i] as nat))
}

proof fn lemma_words_joined(parts: Seq<Seq<char>>)
    requires
        parts.len() > 0,
        forall|i: int|
            0 <= i < parts.len() ==> (#[trigger] parts[i]).len() > 0 && forall|j: int|
                0 <= j < parts[i].len() ==> !text::is_space(#[trigger] parts[i][j]),
    ensures
        text::words(text::join(parts, seq![' '])) == parts,
    decreases parts.len(),
{
    if parts.len() == 1 {
        lemma_words_end(parts[0]);
        assert(seq![parts[0]] =~= parts);
    } else {
        let first = parts[0];
        let rest = parts.skip(1);
        assert forall|i: int| 0 <= i < rest.len() implies (#[trigger] rest[i]).len() > 0 && forall|
            j: int,
        | 0 <= j < rest[i].len() ==> !text::is_space(#[trigger] rest[i][j]) by {
            assert(rest[i] == parts[i + 1]);
        }
        lemma_words_joined(rest);
        assert(parts =~= seq![first] + rest);
        text::lemma_join_front(first, rest, seq![' ']);
        let tail = text::join(rest, seq![' ']);
        assert(text::join(parts, seq![' ']) =~= first + (seq![' '] + tail));
        lemma_word_then(first, tail);
    }
}

proof fn lemma_payloads(v: Seq<u8>)
    ensures
        sdp::payloads_of(number_parts(v)) == v,
    decreases v.len(),
{
    if v.len() > 0 {
        lemma_payloads(v.drop_last());
        assert(number_parts(v).drop_last() =~= number_parts(v.drop_last()));
        text::law_decimal_round_trip(v.last() as nat, 255);
        assert(v.drop_last().push(v.last()) =~= v);
    } else {
        assert(sdp::payloads_of(number_parts(v)) =~= v);
    }
}

proof fn lemma_numbers_plain(v: Seq<u8>)
    requires
        v.len() > 0,
    ensures
        sdp::numbers_text(v).len() > 0,
        sdp::numbers_text(v).last() != '\r',
        !sdp::numbers_text(v).contains('\n'),
    decreases v.len(),
{
    reveal_strlit(" ");
    lemma_digits(v.last() as nat);
    let d = text::dec(v.last() as nat);
    if v.len() > 1 {
        lemma_numbers_plain(v.drop_last());
        let t = sdp::numbers_text(v.drop_last());
        assert(sdp::numbers_text(v).last() == d.last());
        text::lemma_contains_concat(t, " "@, '\n');
        text::lemma_contains_concat(t + " "@, d, '\n');
    }
}

/// What stands in a description when its media line has been read.
pub open spec fn with_media(s: Session) -> Progress {
    Progress {
        address: Some(s.address),
        port: s.port,
        payload_types: sdp::all_types(s),
        in_audio: true,
        seen_media: true,
        ..sdp::nothing_read()
    }
}

proof fn lemma_media_read(s: Session, p: Progress)
    requires
        sdp::all_types(s).len() > 0,
        p.payload_types.len() == 0,
    ensures
        sdp::line_read(media_line(s), p) == (Progress {
            seen_media: true,
            in_audio: true,
            port: s.port,
            payload_types: sdp::all_types(s),
            ..p
        }),
        !media_line(s).contains('\n'),
{
    let port = text::dec(s.port as nat);
    let types = sdp::all_types(s);
    let nums = sdp::numbers_text(types);
    let v = "audio "@ + port + " RTP/AVP "@ + nums;
    lemma_keys();
    lemma_digits(s.port as nat);
    lemma_numbers_plain(types);
    reveal_strlit("audio ");
    reveal_strlit("audio");
    reveal_strlit(" RTP/AVP ");
    assert(v.last() == nums.last());
    lemma_line_apart('m', v);
    let a = "audio"@;
    let r = seq!['R', 'T', 'P', '/', 'A', 'V', 'P'];
    assert(v =~= a + (seq![' '] + (port + (seq![' '] + (r + (seq![' '] + nums))))));
    lemma_word_then(a, port + (seq![' '] + (r + (seq![' '] + nums))));
    lemma_word_then(port, r + (seq![' '] + nums));
    lemma_word_then(r, nums);
    lemma_numbers(types);
    let parts = number_parts(types);
    assert forall|i: int| 0 <= i < parts.len() implies (#[trigger] parts[i]).len() > 0 && forall|
        j: int,
    | 0 <= j < parts[i].len() ==> !text::is_space(#[trigger] parts[i][j]) by {
        lemma_digits(types[i] as nat);
    }
    lemma_words_joined(parts);
    let w = text::words(v);
    assert(w =~= seq![a, port, r] + parts);
    assert(w.skip(3) =~= parts);
    lemma_payloads(types);
    text::law_decimal_round_trip(s.port as nat, 65535);
    assert(seq!['c'][0] == 'c' && seq!['m'][0] == 'm');
    assert(p.payload_types.len() == 0);
    let l = media_line(s);
    assert forall|i: int| 0 <= i < l.len() implies l[i] != '\n' by {
        if 8 <= i < 8 + port.len() {
            assert(l[i] == port[i - 8]);
        } else if i >= 17 + port.len() {
            assert(l[i] == nums[i - 17 - port.len()]);
            assert(nums.contains(nums[i - 17 - port.len()]));
        }
    }
}

// ------------------------------------------------------------------ attributes

proof fn lemma_attribute(v: Seq<char>, p: Progress)
    requires
        p.in_audio || !p.seen_media,
        v.len() > 0,
        v.last() != '\r',
    ensures
        sdp::line_read(seq!['a', '='] + v, p) == sdp::attribute_read(v, p),
{
    lemma_keys();
    lemma_line_apart('a', v);
    assert(seq!['a'][0] == 'a' && seq!['c'][0] == 'c' && seq!['m'][0] == 'm');
}

/// A mapping is read as its two words.
proof fn lemma_map_words(pt: u8, name: Seq<char>)
    requires
        name.len() > 0,
        forall|i: int| 0 <= i < name.len() ==> !text::is_space(#[trigger] name[i]),
    ensures
        ({
            let v = "rtpmap:"@ + text::dec(pt as nat) + " "@ + name;
            &&& text::trim(v) == v
            &&& text::has_prefix(v, "rtpmap:"@)
            &&& text::words(v.skip("rtpmap:"@.len() as int)) == seq![text::dec(pt as nat), name]
            &&& v.last() == name.last()
            &&& !v.contains('\n')
        }),
{
    let d = text::dec(pt as nat);
    let v = "rtpmap:"@ + d + " "@ + name;
    reveal_strlit("rtpmap:");
    reveal_strlit(" ");
    lemma_spaces();
    lemma_digits(pt as nat);
    assert(v[0] == 'r');
    assert(v.last() == name.last());
    text::lemma_trimmed(v);
    assert(v.take(7) =~= "rtpmap:"@);
    assert(v.skip(7) =~= d + (seq![' '] + name));
    lemma_word_then(d, name);
    lemma_words_end(name);
    assert(text::words(v.skip(7)) =~= seq![d, name]);
    assert forall|i: int| 0 <= i < v.len() implies v[i] != '\n' by {
        if 7 <= i < 7 + d.len() {
            assert(v[i] == d[i - 7]);
        } else if i > 7 + d.len() {
            assert(v[i] == name[i - 8 - d.len()]);
        }
    }
}

proof fn lemma_codec_names(c: crate::sip::sdp::Codec)
    ensures
        sdp::codec_name(c).len() > 0,
        forall|i: int|
            0 <= i < sdp::codec_name(c).len() ==> !text::is_space(#[trigger] sdp::codec_name(c)[i]),
        !text::has_prefix(text::lower(sdp::codec_name(c)), "telephone-event"@),
        sdp::codec_name(c).last() != '\r',
{
    reveal_strlit("PCMU/8000");
    reveal_strlit("PCMA/8000");
    reveal_strlit("telephone-event");
    let l = text::lower(sdp::codec_name(c));
    assert(l.len() == 9);
}

proof fn lemma_maps_read(lines: Seq<Seq<char>>, pts: Seq<u8>)
    requires
        sdp::lines_read(lines).in_audio,
    ensures
        sdp::lines_read(lines + map_lines(pts)) == sdp::lines_read(lines),
        plain_lines(map_lines(pts)),
    decreases pts.len(),
{
    if pts.len() == 0 {
        assert(lines + map_lines(pts) =~= lines);
    } else {
        lemma_maps_read(lines, pts.drop_last());
        if let Some(c) = sdp::codec_of(pts.last()) {
            let front = map_lines(pts.drop_last());
            let name = sdp::codec_name(c);
            let l = map_line(pts.last(), name);
            let v = "rtpmap:"@ + text::dec(pts.last() as nat) + " "@ + name;
            assert(lines + front.push(l) =~= (lines + front).push(l));
            lemma_read_push(lines + front, l);
            lemma_codec_names(c);
            lemma_map_words(pts.last(), name);
            reveal_strlit("rtpmap:");
            lemma_attribute(v, sdp::lines_read(lines));
            text::lemma_contains_concat(seq!['a', '='], v, '\n');
            assert(!seq!['a', '='].contains('\n'));
            assert forall|i: int|
                0 <= i < map_lines(pts).len() implies !(#[trigger] map_lines(pts)[i]).contains(
                '\n',
            ) by {
                if i < front.len() {
                    assert(map_lines(pts)[i] == front[i]);
                }
            }
        }
    }
}

proof fn lemma_event_map_read(te: u8, p: Progress)
    requires
        p.in_audio,
    ensures
        sdp::line_read(map_line(te, "telephone-event/8000"@), p) == (Progress {
            telephone_event: Some(te),
            ..p
        }),
        !map_line(te, "telephone-event/8000"@).contains('\n'),
{
    let name = "telephone-event/8000"@;
    let v = "rtpmap:"@ + text::dec(te as nat) + " "@ + name;
    reveal_strlit("telephone-event/8000");
    reveal_strlit("telephone-event");
    lemma_map_words(te, name);
    assert(v.len() > 0) by {
        reveal_strlit("rtpmap:");
    }
    lemma_attribute(v, p);
    assert(text::lower(name).take(15) =~= "telephone-event"@);
    text::law_decimal_round_trip(te as nat, 255);
    text::lemma_contains_concat(seq!['a', '='], v, '\n');
    assert(!seq!['a', '='].contains('\n'));
}

proof fn lemma_format_read(te: u8, p: Progress)
    requires
        p.in_audio,
    ensures
        sdp::line_read(format_line(te), p) == p,
        !format_line(te).contains('\n'),
{
    let d = text::dec(te as nat);
    let v = "fmtp:"@ + d + " 0-16"@;
    reveal_strlit("fmtp:");
    reveal_strlit(" 0-16");
    reveal_strlit("rtpmap:");
    reveal_strlit("ptime:");
    reveal_strlit("sendonly");
    reveal_strlit("recvonly");
    reveal_strlit("inactive");
    reveal_strlit("sendrecv");
    lemma_digits(te as nat);
    assert(v[0] == 'f');
    assert(v.last() == '6');
    text::lemma_trimmed(v);
    lemma_attribute(v, p);
    assert(text::lower(v)[0] == 'f');
    assert(text::lower("sendonly"@)[0] == 's');
    assert(text::lower("recvonly"@)[0] == 'r');
    assert(text::lower("inactive"@)[0] == 'i');
    assert(text::lower("sendrecv"@)[0] == 's');
    if text::has_prefix(v, "rtpmap:"@) {
        assert(v.take(7)[0] == 'r');
    }
    if text::has_prefix(v, "ptime:"@) {
        assert(v.take(6)[0] == 'p');
    }
    let l = format_line(te);
    assert forall|i: int| 0 <= i < l.len() implies l[i] != '\n' by {
        if 7 <= i < 7 + d.len() {
            assert(l[i] == d[i - 7]);
        }
    }
}

proof fn lemma_time_read(n: u32, p: Progress)
    requires
        p.in_audio,
    ensures
        sdp::line_read(seq!['a', '='] + ("ptime:"@ + text::dec(n as nat)), p) == (Progress {
            ptime: Some(n),
            ..p
        }),
        !(seq!['a', '='] + ("ptime:"@ + text::dec(n as nat))).contains('\n'),
{
    let d = text::dec(n as nat);
    let v = "ptime:"@ + d;
    reveal_strlit("ptime:");
    reveal_strlit("rtpmap:");
    lemma_digits(n as nat);
    assert(v[0] == 'p');
    assert(v.last() == d.last());
    text::lemma_trimmed(v);
    lemma_attribute(v, p);
    if text::has_prefix(v, "rtpmap:"@) {
        assert(v.take(7)[0] == 'r');
    }
    assert(v.take(6) =~= "ptime:"@);
    assert(v.skip(6) =~= d);
    text::lemma_trimmed(d);
    text::law_decimal_round_trip(n as nat, 0xffff_ffff);
    let l = seq!['a', '='] + v;
    assert forall|i: int| 0 <= i < l.len() implies l[i] != '\n' by {
        if i >= 8 {
            assert(l[i] == d[i - 8]);
        }
    }
}

proof fn lemma_direction_read(d: Direction, p: Progress)
    requires
        p.in_audio || !p.seen_media,
    ensures
        sdp::line_read(direction_line(d), p) == (Progress { direction: d, ..p }),
        !direction_line(d).contains('\n'),
{
    let v = sdp::direction_name(d);
    reveal_strlit("rtpmap:");
    reveal_strlit("ptime:");
    reveal_strlit("sendonly");
    reveal_strlit("recvonly");
    reveal_strlit("inactive");
    reveal_strlit("sendrecv");
    assert(v.len() == 8);
    text::lemma_trimmed(v);
    lemma_attribute(v, p);
    let so = text::lower("sendonly"@);
    let ro = text::lower("recvonly"@);
    let ia = text::lower("inactive"@);
    let sr = text::lower("sendrecv"@);
    assert(so[0] == 's' && so[4] == 'o');
    assert(ro[0] == 'r');
    assert(ia[0] == 'i');
    assert(sr[0] == 's' && sr[4] == 'r');
    if text::has_prefix(v, "rtpmap:"@) {
        assert(v.take(7)[0] == 'r' && v.take(7)[1] == 't');
    }
    if text::has_prefix(v, "ptime:"@) {
        assert(v.take(6)[0] == 'p');
    }
}

// ------------------------------------------------------------------ the law

#[verifier::rlimit(40)]
proof fn lemma_head_read(s: Session)
    requires
        sdp::all_types(s).len() > 0,
        !s.origin_user.contains('\n'),
    ensures
        sdp::lines_read(head_lines(s)) == with_media(s),
        plain_lines(head_lines(s)),
{
    let none = Seq::<Seq<char>>::empty();
    let p = sdp::nothing_read();
    let l0 = "v=0"@;
    let l1 = origin_line(s);
    let l2 = "s=modem2sip"@;
    let l3 = connection_line(s);
    let l4 = "t=0 0"@;
    let l5 = media_line(s);
    reveal_strlit("v=0");
    reveal_strlit("s=modem2sip");
    reveal_strlit("t=0 0");
    assert(l0 =~= seq!['v', '='] + seq!['0']);
    assert(l2 =~= seq!['s', '='] + seq!['m', 'o', 'd', 'e', 'm', '2', 's', 'i', 'p']);
    assert(l4 =~= seq!['t', '='] + seq!['0', ' ', '0']);
    lemma_other_line('v', seq!['0'], p);
    lemma_origin_plain(s);
    lemma_other_line('o', l1.skip(2), p);
    assert(l1 =~= seq!['o', '='] + l1.skip(2));
    lemma_other_line('s', seq!['m', 'o', 'd', 'e', 'm', '2', 's', 'i', 'p'], p);
    lemma_connection_read(s, p);
    let q = Progress { address: Some(s.address), ..p };
    lemma_other_line('t', seq!['0', ' ', '0'], q);
    lemma_media_read(s, q);
    lemma_read_push(none, l0);
    lemma_read_push(none.push(l0), l1);
    lemma_read_push(none.push(l0).push(l1), l2);
    lemma_read_push(none.push(l0).push(l1).push(l2), l3);
    lemma_read_push(none.push(l0).push(l1).push(l2).push(l3), l4);
    lemma_read_push(none.push(l0).push(l1).push(l2).push(l3).push(l4), l5);
    assert(sdp::lines_read(none) == p);
    let h = head_lines(s);
    assert(h =~= none.push(l0).push(l1).push(l2).push(l3).push(l4).push(l5));
    assert forall|i: int| 0 <= i < h.len() implies !(#[trigger] h[i]).contains('\n') by {
        assert(i == 0 || i == 1 || i == 2 || i == 3 || i == 4 || i == 5);
    }
}

proof fn lemma_origin_plain(s: Session)
    requires
        !s.origin_user.contains('\n'),
    ensures
        !origin_line(s).contains('\n'),
        origin_line(s).len() > 2,
        origin_line(s).last() != '\r',
        origin_line(s)[0] == 'o' && origin_line(s)[1] == '=',
{
    let u = s.origin_user;
    let i = text::dec(s.session_id as nat);
    let v = text::dec(s.session_version as nat);
    let f = sdp::family_text(s.address);
    let a = net::ip_text(s.address);
    reveal_strlit(" ");
    reveal_strlit(" IN ");
    lemma_spaces();
    lemma_digits(s.session_id as nat);
    lemma_digits(s.session_version as nat);
    lemma_family(s.address);
    lemma_address(s.address);
    let c = '\n';
    text::lemma_contains_concat(u, " "@, c);
    text::lemma_contains_concat(u + " "@, i, c);
    text::lemma_contains_concat(u + " "@ + i, " "@, c);
    text::lemma_contains_concat(u + " "@ + i + " "@, v, c);
    text::lemma_contains_concat(u + " "@ + i + " "@ + v, " IN "@, c);
    text::lemma_contains_concat(u + " "@ + i + " "@ + v + " IN "@, f, c);
    text::lemma_contains_concat(u + " "@ + i + " "@ + v + " IN "@ + f, " "@, c);
    text::lemma_contains_concat(u + " "@ + i + " "@ + v + " IN "@ + f + " "@, a, c);
    let body = u + " "@ + i + " "@ + v + " IN "@ + f + " "@ + a;
    text::lemma_contains_concat(seq!['o', '='], body, c);
    assert(!" "@.contains(c) && !" IN "@.contains(c) && !seq!['o', '='].contains(c));
    assert(!f.contains(c));
    assert(body.last() == a.last());
}

proof fn lemma_events_read(lines: Seq<Seq<char>>, t: Option<u8>)
    requires
        sdp::lines_read(lines).in_audio,
        sdp::lines_read(lines).telephone_event.is_none(),
    ensures
        sdp::lines_read(lines + event_lines(t)) == (Progress {
            telephone_event: t,
            ..sdp::lines_read(lines)
        }),
        plain_lines(event_lines(t)),
{
    let p = sdp::lines_read(lines);
    match t {
        Some(te) => {
            let a = map_line(te, "telephone-event/8000"@);
            let b = format_line(te);
            lemma_event_map_read(te, p);
            lemma_format_read(te, Progress { telephone_event: t, ..p });
            lemma_read_push(lines, a);
            lemma_read_push(lines.push(a), b);
            assert(lines + event_lines(t) =~= lines.push(a).push(b));
        },
        None => {
            assert(lines + event_lines(t) =~= lines);
        },
    }
}

proof fn lemma_times_read(lines: Seq<Seq<char>>, t: Option<u32>)
    requires
        sdp::lines_read(lines).in_audio,
        sdp::lines_read(lines).ptime.is_none(),
    ensures
        sdp::lines_read(lines + time_lines(t)) == (Progress { ptime: t, ..sdp::lines_read(lines) }),
        plain_lines(time_lines(t)),
{
    match t {
        Some(n) => {
            let a = seq!['a', '='] + ("ptime:"@ + text::dec(n as nat));
            lemma_time_read(n, sdp::lines_read(lines));
            lemma_read_push(lines, a);
            assert(lines + time_lines(t) =~= lines.push(a));
        },
        None => {
            assert(lines + time_lines(t) =~= lines);
        },
    }
}

proof fn lemma_session_read(s: Session)
    requires
        sdp::all_types(s).len() > 0,
        !s.origin_user.contains('\n'),
    ensures
        plain_lines(session_lines(s)),
        sdp::lines_read(session_lines(s)) == (Progress {
            telephone_event: s.telephone_event,
            ptime: s.ptime,
            direction: s.sendrecv,
            ..with_media(s)
        }),
{
    let h = head_lines(s);
    let m = map_lines(s.payload_types);
    let e = event_lines(s.telephone_event);
    let t = time_lines(s.ptime);
    let d = direction_line(s.sendrecv);
    lemma_head_read(s);
    lemma_maps_read(h, s.payload_types);
    lemma_plain_concat(h, m);
    lemma_events_read(h + m, s.telephone_event);
    lemma_plain_concat(h + m, e);
    lemma_times_read(h + m + e, s.ptime);
    lemma_plain_concat(h + m + e, t);
    lemma_direction_read(s.sendrecv, sdp::lines_read(h + m + e + t));
    lemma_read_push(h + m + e + t, d);
    assert(h + m + e + t + seq![d] =~= (h + m + e + t).push(d));
    assert(plain_lines(seq![d]));
    lemma_plain_concat(h + m + e + t, seq![d]);
}

/// A description is read as it was sent. The telephone events are then among the payload types, and
/// the origin, which says nothing of the media, is left out.
pub proof fn law_a_description_reads_back(s: Session)
    requires
        sdp::all_types(s).len() > 0,
        !s.origin_user.contains('\n'),
    ensures
        sdp::session_of(sdp::session_text(s)) == Some(
            (Session {
                origin_user: "-"@,
                session_id: 0,
                session_version: 0,
                payload_types: sdp::all_types(s),
                ..s
            }),
        ),
{
    lemma_session_text(s);
    lemma_session_read(s);
    lemma_lines_apart(session_lines(s));
}

/// The line of the first audio medium gives its port and its payload types, all of them in their order;
/// the lines of other media give nothing, and what stands behind them is not about this one.
pub proof fn law_a_media_line_is_read(port: u16, types: Seq<u8>, p: Progress)
    requires
        types.len() > 0,
    ensures
        ({
            let line = seq!['m', '='] + ("audio "@ + text::dec(port as nat) + " RTP/AVP "@
                + sdp::numbers_text(types));
            &&& p.payload_types.len() == 0 ==> sdp::line_read(line, p) == (Progress {
                seen_media: true,
                in_audio: true,
                port,
                payload_types: types,
                ..p
            })
            &&& p.payload_types.len() > 0 ==> sdp::line_read(line, p) == (Progress {
                seen_media: true,
                in_audio: false,
                ..p
            })
        }),
{
    let s = Session {
        origin_user: seq![],
        session_id: 0,
        session_version: 0,
        address: net::IpAddr::V4(0),
        port,
        payload_types: types,
        telephone_event: None,
        ptime: None,
        sendrecv: Direction::SendRecv,
    };
    let line = media_line(s);
    if p.payload_types.len() == 0 {
        lemma_media_read(s, p);
    } else {
        let nums = sdp::numbers_text(types);
        let v = "audio "@ + text::dec(port as nat) + " RTP/AVP "@ + nums;
        lemma_keys();
        lemma_numbers_plain(types);
        assert(v.last() == nums.last());
        lemma_line_apart('m', v);
        assert(seq!['c'][0] == 'c' && seq!['m'][0] == 'm');
    }
}

/// A line that says which way the media go is heard in front of all media and behind the audio, and the
/// last one counts; behind another medium it is about that one. Lines of other kinds say nothing.
pub proof fn law_a_direction_is_read(d: Direction, p: Progress, key: char, value: Seq<char>)
    requires
        key != 'a' && key != 'c' && key != 'm' && key != '=',
        value.len() > 0,
        value.last() != '\r',
    ensures
        ({
            let line = seq!['a', '='] + match d {
                Direction::SendRecv => "sendrecv"@,
                Direction::SendOnly => "sendonly"@,
                Direction::RecvOnly => "recvonly"@,
                Direction::Inactive => "inactive"@,
            };
            p.in_audio || !p.seen_media ==> sdp::line_read(line, p) == (Progress {
                direction: d,
                ..p
            })
        }),
        sdp::line_read(seq![key, '='] + value, p) == p,
{
    if p.in_audio || !p.seen_media {
        lemma_direction_read(d, p);
    }
    lemma_other_line(key, value, p);
}

} // verus!
