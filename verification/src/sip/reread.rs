//! What was read of a text is written so that it is read again.
use vstd::prelude::*;

use crate::sip::round_trip;
use crate::sip::uri;
use crate::sip::uri::Address;
use crate::text;

verus! {

/// Every character of a text is one of these.
spec fn every(s: Seq<char>, p: spec_fn(char) -> bool) -> bool {
    forall|i: int| 0 <= i < s.len() ==> p(#[trigger] s[i])
}

/// A text without white space.
pub open spec fn spaceless(s: Seq<char>) -> bool {
    forall|i: int| 0 <= i < s.len() ==> !text::is_space(#[trigger] s[i])
}

/// A character of the part of a URI before its headers.
spec fn of_address(c: char) -> bool {
    !text::is_space(c) && c != '?'
}

/// A character of a parameter, or of what stands before the parameters.
spec fn of_piece(c: char) -> bool {
    of_address(c) && c != ';'
}

/// A character of a header.
spec fn of_header(c: char) -> bool {
    !text::is_space(c) && c != '&'
}

proof fn lemma_cut(s: Seq<char>, c: char, p: spec_fn(char) -> bool)
    requires
        every(s, p),
    ensures
        text::split_once(s, c) matches Some((a, b)) ==> every(a, p) && every(b, p) && !a.contains(c),
        text::split_once(s, c).is_none() ==> !s.contains(c),
        text::rsplit_once(s, c) matches Some((a, b)) ==> every(a, p) && every(b, p) && !b.contains(
            c,
        ),
        text::rsplit_once(s, c).is_none() ==> !s.contains(c),
{
    text::lemma_find(s, c);
    text::lemma_last(s, c);
}

proof fn lemma_pieces(s: Seq<char>, c: char, p: spec_fn(char) -> bool)
    requires
        every(s, p),
    ensures
        forall|i: int|
            0 <= i < text::split(s, c).len() ==> every(#[trigger] text::split(s, c)[i], p)
                && !text::split(s, c)[i].contains(c),
    decreases s.len(),
{
    text::lemma_find(s, c);
    let k = text::find(s, c);
    if k < s.len() {
        let rest = text::split(s.skip(k + 1), c);
        assert(every(s.skip(k + 1), p));
        lemma_pieces(s.skip(k + 1), c, p);
        assert(text::split(s, c) =~= seq![s.take(k)] + rest);
        assert forall|i: int| 0 <= i < text::split(s, c).len() implies every(
            #[trigger] text::split(s, c)[i],
            p,
        ) && !text::split(s, c)[i].contains(c) by {
            if i > 0 {
                assert(text::split(s, c)[i] == rest[i - 1]);
            }
        }
    }
}

/// A parameter that was read is written as it was read, up to the case of its name.
proof fn lemma_read_param(s: Seq<char>)
    requires
        s.len() > 0,
        every(s, |c: char| of_piece(c)),
    ensures
        round_trip::param_writable(uri::param_of(s)),
        every(round_trip::param_piece(uri::param_of(s)), |c: char| of_piece(c)),
{
    reveal_strlit("=");
    lemma_cut(s, '=', |c: char| of_piece(c));
    let (name, value) = uri::param_of(s);
    let k = match text::split_once(s, '=') {
        Some((k, _)) => k,
        None => s,
    };
    assert(every(k, |c: char| of_piece(c)));
    assert(text::lower(name) =~= name);
    assert forall|i: int| 0 <= i < name.len() implies of_piece(#[trigger] name[i]) && name[i]
        != '=' by {
        assert(name[i] == text::lower_char(k[i]));
        assert(k.contains(k[i]));
    }
    let t = round_trip::param_piece((name, value));
    assert forall|i: int| 0 <= i < t.len() implies of_piece(#[trigger] t[i]) by {
        if i < name.len() {
            assert(t[i] == name[i]);
        } else if i > name.len() {
            assert(t[i] == value.unwrap()[i - name.len() - 1]);
        }
    }
    assert(!t.contains(';'));
    assert(!name.contains('='));
}

proof fn lemma_read_params(parts: Seq<Seq<char>>)
    requires
        forall|i: int|
            0 <= i < parts.len() ==> every(#[trigger] parts[i], |c: char| of_piece(c)),
    ensures
        forall|i: int|
            0 <= i < uri::params_of(parts).len() ==> round_trip::param_writable(
                #[trigger] uri::params_of(parts)[i],
            ),
        every(uri::params_text(uri::params_of(parts)), |c: char| of_address(c)),
    decreases parts.len(),
{
    let ps = uri::params_of(parts);
    if parts.len() > 0 {
        let front = parts.drop_last();
        assert forall|i: int| 0 <= i < front.len() implies every(
            #[trigger] front[i],
            |c: char| of_piece(c),
        ) by {
            assert(front[i] == parts[i]);
        }
        lemma_read_params(front);
        if parts.last().len() > 0 {
            let p = uri::param_of(parts.last());
            assert(every(parts[parts.len() - 1], |c: char| of_piece(c)));
            lemma_read_param(parts.last());
            assert(ps.drop_last() =~= uri::params_of(front));
            let a = uri::params_text(uri::params_of(front));
            let b = uri::param_text(p.0, p.1);
            reveal_strlit(";");
            reveal_strlit("=");
            assert(b =~= seq![';'] + round_trip::param_piece(p));
            assert forall|i: int| 0 <= i < (a + b).len() implies of_address(#[trigger] (a + b)[i]) by {
                if i < a.len() {
                    assert((a + b)[i] == a[i]);
                } else if i > a.len() {
                    assert((a + b)[i] == round_trip::param_piece(p)[i - a.len() - 1]);
                    assert(of_piece(round_trip::param_piece(p)[i - a.len() - 1]));
                }
            }
            assert(uri::params_text(ps) == a + b);
            assert forall|i: int| 0 <= i < ps.len() implies round_trip::param_writable(#[trigger] ps[i]) by {
                if i < ps.len() - 1 {
                    assert(ps[i] == uri::params_of(front)[i]);
                }
            }
        }
    }
}

proof fn lemma_read_headers(parts: Seq<Seq<char>>)
    requires
        forall|i: int|
            0 <= i < parts.len() ==> every(#[trigger] parts[i], |c: char| of_header(c)),
    ensures
        forall|i: int|
            0 <= i < uri::uri_headers_of(parts).len() ==> round_trip::header_writable(
                #[trigger] uri::uri_headers_of(parts)[i],
            ),
        spaceless(uri::uri_headers_text(uri::uri_headers_of(parts))),
    decreases parts.len(),
{
    let hs = uri::uri_headers_of(parts);
    if parts.len() > 0 {
        let front = parts.drop_last();
        assert forall|i: int| 0 <= i < front.len() implies every(
            #[trigger] front[i],
            |c: char| of_header(c),
        ) by {
            assert(front[i] == parts[i]);
        }
        lemma_read_headers(front);
        let last = parts[parts.len() - 1];
        assert(every(last, |c: char| of_header(c)));
        lemma_cut(last, '=', |c: char| of_header(c));
        if let Some((k, v)) = text::split_once(last, '=') {
            let t = uri::uri_header_text((k, v));
            reveal_strlit("=");
            reveal_strlit("?");
            reveal_strlit("&");
            assert forall|i: int| 0 <= i < t.len() implies of_header(#[trigger] t[i]) by {
                if i < k.len() {
                    assert(t[i] == k[i]);
                } else if i > k.len() {
                    assert(t[i] == v[i - k.len() - 1]);
                }
            }
            assert(!t.contains('&'));
            assert(hs.drop_last() =~= uri::uri_headers_of(front));
            assert(hs.last() == (k, v));
            assert forall|i: int| 0 <= i < hs.len() implies round_trip::header_writable(#[trigger] hs[i]) by {
                if i < hs.len() - 1 {
                    assert(hs[i] == uri::uri_headers_of(front)[i]);
                }
            }
            let a = uri::uri_headers_text(hs.drop_last());
            let x = uri::uri_headers_text(hs);
            assert forall|i: int| 0 <= i < x.len() implies !text::is_space(#[trigger] x[i]) by {
                if hs.len() == 1 {
                    if i > 0 {
                        assert(x[i] == t[i - 1]);
                    }
                } else if i < a.len() {
                    assert(x[i] == a[i]);
                } else if i > a.len() {
                    assert(x[i] == t[i - a.len() - 1]);
                }
            }
        }
    }
}

proof fn lemma_read_host(s: Seq<char>)
    requires
        every(s, |c: char| of_piece(c)),
        !s.contains('@'),
        uri::host_port_of(s).0.len() > 0,
        !uri::host_port_of(s).0.contains(':'),
    ensures
        round_trip::host_writable(uri::host_port_of(s).0, uri::host_port_of(s).1),
        every(uri::host_port_of(s).0 + uri::port_text(uri::host_port_of(s).1), |c: char| of_piece(c)),
        !uri::host_port_of(s).0.contains('@'),
{
    let (host, port) = uri::host_port_of(s);
    assert(text::is_trimmed(s)) by {
        if s.len() > 0 {
            assert(of_piece(s[0]) && of_piece(s[s.len() - 1]));
        }
    }
    text::lemma_trimmed(s);
    text::lemma_find(s.skip(1), ']');
    text::lemma_last(s, ':');
    text::lemma_rsplit_once_none(host, ':');
    let bracketed = s.len() > 0 && s[0] == '[' && text::find(s.skip(1), ']') < s.len() - 1;
    let d: int = if bracketed {
        1
    } else {
        0
    };
    assert(host =~= s.subrange(d, d + host.len()));
    assert forall|i: int| 0 <= i < host.len() implies host[i] != '@' && of_piece(
        #[trigger] host[i],
    ) by {
        assert(host[i] == s[d + i]);
        assert(s.contains(s[d + i]));
    }
    if host[0] == '[' && host.contains(']') {
        let i = choose|i: int| 0 <= i < host.len() && host[i] == ']';
        assert(host[i] == s[d + i]);
        assert(s.skip(1)[d + i - 1] == ']');
    }
    let t = host + uri::port_text(port);
    reveal_strlit(":");
    if let Some(n) = port {
        text::lemma_dec_reads_back(n as nat);
    }
    assert forall|i: int| 0 <= i < t.len() implies of_piece(#[trigger] t[i]) by {
        if i < host.len() {
            assert(t[i] == host[i]);
        } else if i > host.len() {
            assert(t[i] == text::dec(port.unwrap() as nat)[i - host.len() - 1]);
        }
    }
}

/// The headers in the text of them.
spec fn headers_in(h: Option<Seq<char>>) -> Seq<(Seq<char>, Seq<char>)> {
    match h {
        Some(t) => uri::uri_headers_of(text::split(t, '&')),
        None => seq![],
    }
}

/// The parameters in the text of them.
spec fn params_in(p: Option<Seq<char>>) -> Seq<(Seq<char>, Option<Seq<char>>)> {
    match p {
        Some(t) => uri::params_of(text::split(t, ';')),
        None => seq![],
    }
}

proof fn lemma_read_header_text(h: Option<Seq<char>>)
    requires
        h matches Some(t) ==> spaceless(t),
    ensures
        forall|i: int| 0 <= i < headers_in(h).len() ==> round_trip::header_writable(#[trigger] headers_in(h)[i]),
        spaceless(uri::uri_headers_text(headers_in(h))),
{
    if let Some(t) = h {
        let space = |c: char| !text::is_space(c);
        assert(every(t, space));
        lemma_pieces(t, '&', space);
        let parts = text::split(t, '&');
        assert forall|i: int| 0 <= i < parts.len() implies every(
            #[trigger] parts[i],
            |c: char| of_header(c),
        ) by {
            assert(every(parts[i], space));
            assert forall|j: int| 0 <= j < parts[i].len() implies of_header(
                #[trigger] parts[i][j],
            ) by {
                assert(space(parts[i][j]));
                assert(parts[i].contains(parts[i][j]));
            }
        }
        lemma_read_headers(parts);
    }
}

proof fn lemma_read_param_text(p: Option<Seq<char>>)
    requires
        p matches Some(t) ==> every(t, |c: char| of_address(c)),
    ensures
        forall|i: int| 0 <= i < params_in(p).len() ==> round_trip::param_writable(#[trigger] params_in(p)[i]),
        every(uri::params_text(params_in(p)), |c: char| of_address(c)),
{
    if let Some(t) = p {
        let plain = |c: char| of_address(c);
        assert(every(t, plain));
        lemma_pieces(t, ';', plain);
        let parts = text::split(t, ';');
        assert forall|i: int| 0 <= i < parts.len() implies every(
            #[trigger] parts[i],
            |c: char| of_piece(c),
        ) by {
            assert(every(parts[i], plain));
            assert forall|j: int| 0 <= j < parts[i].len() implies of_piece(
                #[trigger] parts[i][j],
            ) by {
                assert(plain(parts[i][j]));
                assert(parts[i].contains(parts[i][j]));
            }
        }
        lemma_read_params(parts);
    }
}

proof fn lemma_read_authority(s: Seq<char>, u: Address)
    requires
        every(s, |c: char| of_piece(c)),
        u.scheme != "tel"@,
        uri::authority_of(u.scheme, s) == (u.user, u.password, u.host, u.port),
        u.host.len() > 0,
        !u.host.contains(':'),
    ensures
        u.user matches Some(n) ==> !n.contains(':'),
        u.user.is_none() ==> u.password.is_none(),
        !u.host.contains('@'),
        round_trip::host_writable(u.host, u.port),
        every(round_trip::authority_text(u), |c: char| of_piece(c)),
{
    reveal_strlit(":");
    reveal_strlit("@");
    let piece = |c: char| of_piece(c);
    assert(every(s, piece));
    lemma_cut(s, '@', piece);
    let ut = uri::user_text(u);
    match text::rsplit_once(s, '@') {
        Some((info, hp)) => {
            lemma_cut(info, ':', piece);
            lemma_read_host(hp);
            let name = u.user.unwrap();
            assert(every(name, piece));
            assert forall|i: int| 0 <= i < ut.len() implies of_piece(#[trigger] ut[i]) by {
                if i < name.len() {
                    assert(ut[i] == name[i]);
                    assert(piece(name[i]));
                } else if u.password.is_some() && name.len() < i < ut.len() - 1 {
                    assert(every(u.password.unwrap(), piece));
                    assert(ut[i] == u.password.unwrap()[i - name.len() - 1]);
                    assert(piece(u.password.unwrap()[i - name.len() - 1]));
                }
            }
        },
        None => {
            lemma_read_host(s);
        },
    }
    let a = round_trip::authority_text(u);
    let hp = u.host + uri::port_text(u.port);
    assert(a =~= ut + hp);
    assert forall|i: int| 0 <= i < a.len() implies of_piece(#[trigger] a[i]) by {
        if i < ut.len() {
            assert(a[i] == ut[i]);
        } else {
            assert(a[i] == hp[i - ut.len()]);
        }
    }
}

/// Nothing in the text of what was read is taken for something else.
proof fn lemma_read_whole(u: Address)
    requires
        every(round_trip::authority_text(u), |c: char| of_piece(c)),
        every(uri::params_text(u.params), |c: char| of_address(c)),
        spaceless(uri::uri_headers_text(u.headers)),
    ensures
        !round_trip::authority_text(u).contains(';'),
        !(round_trip::authority_text(u) + uri::params_text(u.params)).contains('?'),
        !text::is_space(uri::uri_text(u).last()),
{
    reveal_strlit(":");
    let a = round_trip::authority_text(u);
    let pt = uri::params_text(u.params);
    let ht = uri::uri_headers_text(u.headers);
    assert forall|i: int| 0 <= i < a.len() implies a[i] != ';' by {
        assert(of_piece(a[i]));
    }
    assert forall|i: int| 0 <= i < (a + pt).len() implies of_address(#[trigger] (a + pt)[i]) by {
        if i < a.len() {
            assert(of_piece(a[i]));
        } else {
            assert(of_address(pt[i - a.len()]));
        }
    }
    assert(!(a + pt).contains('?'));
    let t = uri::uri_text(u);
    assert(t =~= u.scheme + seq![':'] + (a + pt) + ht);
    if ht.len() > 0 {
        assert(t.last() == ht[ht.len() - 1]);
    } else if (a + pt).len() > 0 {
        assert(t.last() == (a + pt)[(a + pt).len() - 1]);
    } else {
        assert(t.last() == ':');
    }
}

/// The parts of a text without white space hold nothing that would be taken for something else.
proof fn lemma_read_parts(s: Seq<char>)
    requires
        spaceless(s),
        uri::uri_of(s).is_some(),
    ensures
        ({
            let rest = text::split_once(s, ':').unwrap().1;
            let (body, headers) = uri::before_and_after(rest, '?');
            let (authority, params) = uri::before_and_after(body, ';');
            let u = uri::uri_of(s).unwrap();
            &&& every(authority, |c: char| of_piece(c))
            &&& params matches Some(p) ==> every(p, |c: char| of_address(c))
            &&& headers matches Some(h) ==> spaceless(h)
            &&& u.headers == headers_in(headers)
            &&& u.params == params_in(params)
            &&& uri::authority_of(u.scheme, authority) == (u.user, u.password, u.host, u.port)
            &&& uri::known_scheme(u.scheme)
        }),
{
    let space = |c: char| !text::is_space(c);
    text::lemma_trimmed(s);
    assert(every(s, space));
    lemma_cut(s, ':', space);
    let rest = text::split_once(s, ':').unwrap().1;
    lemma_cut(rest, '?', space);
    let (body, headers) = uri::before_and_after(rest, '?');
    let plain = |c: char| of_address(c);
    assert(every(body, plain)) by {
        assert(every(body, space));
        assert forall|i: int| 0 <= i < body.len() implies of_address(#[trigger] body[i]) by {
            assert(space(body[i]));
            assert(body.contains(body[i]));
        }
    }
    lemma_cut(body, ';', plain);
    let (authority, params) = uri::before_and_after(body, ';');
    assert(every(authority, |c: char| of_piece(c))) by {
        assert(every(authority, plain));
        assert forall|i: int| 0 <= i < authority.len() implies of_piece(#[trigger] authority[i]) by {
            assert(plain(authority[i]));
            assert(authority.contains(authority[i]));
        }
    }
    assert(headers matches Some(h) ==> spaceless(h)) by {
        if let Some(h) = headers {
            assert(every(h, space));
            assert forall|i: int| 0 <= i < h.len() implies !text::is_space(#[trigger] h[i]) by {
                assert(space(h[i]));
            }
        }
    }
}

/// What was read of a `sip` or `sips` text can be written so that it is read again: a text without
/// white space, whose host is not empty and, unlike an IPv6 address, has no colon.
pub proof fn law_a_read_uri_reads_back(s: Seq<char>)
    requires
        spaceless(s),
        uri::uri_of(s) matches Some(u) && (u.scheme == "sip"@ || u.scheme == "sips"@)
            && u.host.len() > 0 && !u.host.contains(':'),
    ensures
        round_trip::uri_writable(uri::uri_of(s).unwrap()),
        uri::uri_of(uri::uri_text(uri::uri_of(s).unwrap())) == uri::uri_of(s),
{
    let u = uri::uri_of(s).unwrap();
    reveal_strlit("sip");
    reveal_strlit("sips");
    reveal_strlit("tel");
    assert(u.scheme != "tel"@) by {
        assert("sip"@[0] == 's' && "sips"@[0] == 's' && "tel"@[0] == 't');
    }
    lemma_read_parts(s);
    let rest = text::split_once(s, ':').unwrap().1;
    let (body, headers) = uri::before_and_after(rest, '?');
    let (authority, params) = uri::before_and_after(body, ';');
    lemma_read_header_text(headers);
    lemma_read_param_text(params);
    lemma_read_authority(authority, u);
    lemma_read_whole(u);
    round_trip::law_a_uri_reads_back(u);
}

/// What was read of a `tel` text can be written so that it is read again: a text without white space
/// and without an at sign, which separates nothing in a telephone number.
pub proof fn law_a_read_tel_uri_reads_back(s: Seq<char>)
    requires
        spaceless(s),
        !s.contains('@'),
        uri::uri_of(s) matches Some(u) && u.scheme == "tel"@,
    ensures
        round_trip::uri_writable(uri::uri_of(s).unwrap()),
        uri::uri_of(uri::uri_text(uri::uri_of(s).unwrap())) == uri::uri_of(s),
{
    let u = uri::uri_of(s).unwrap();
    lemma_read_parts(s);
    let rest = text::split_once(s, ':').unwrap().1;
    let (body, headers) = uri::before_and_after(rest, '?');
    let (authority, params) = uri::before_and_after(body, ';');
    lemma_read_header_text(headers);
    lemma_read_param_text(params);
    let other = |c: char| c != '@';
    assert(every(s, other)) by {
        assert forall|i: int| 0 <= i < s.len() implies #[trigger] s[i] != '@' by {
            assert(s.contains(s[i]));
        }
    }
    text::lemma_trimmed(s);
    lemma_cut(s, ':', other);
    lemma_cut(rest, '?', other);
    lemma_cut(body, ';', other);
    assert(every(authority, other));
    assert(!authority.contains('@')) by {
        if authority.contains('@') {
            let i = choose|i: int| 0 <= i < authority.len() && authority[i] == '@';
            assert(other(authority[i]));
        }
    }
    text::lemma_rsplit_once_none(authority, '@');
    assert(text::is_trimmed(authority)) by {
        if authority.len() > 0 {
            assert(of_piece(authority[0]) && of_piece(authority[authority.len() - 1]));
        }
    }
    text::lemma_trimmed(authority);
    assert(u.user == Some(authority));
    assert(round_trip::authority_text(u) =~= authority);
    lemma_read_whole(u);
    round_trip::law_a_uri_reads_back(u);
}

} // verus!
