//! What is written is read back: URIs, parties and Via values.
use vstd::prelude::*;

use crate::sip::message;
use crate::sip::message::Hop;
use crate::sip::uri;
use crate::sip::uri::{Address, Party};
use crate::text;

verus! {

// ------------------------------------------------------------------ parameters

/// A parameter without the semicolon before it.
pub open spec fn param_piece(p: (Seq<char>, Option<Seq<char>>)) -> Seq<char> {
    match p.1 {
        Some(v) => p.0 + "="@ + v,
        None => p.0,
    }
}

pub open spec fn param_pieces(ps: Seq<(Seq<char>, Option<Seq<char>>)>) -> Seq<Seq<char>> {
    Seq::new(ps.len(), |i: int| param_piece(ps[i]))
}

/// A parameter that is read back as it was written: its name is in lower case, nothing in it is
/// taken for a separator, and it is not empty.
pub open spec fn param_writable(p: (Seq<char>, Option<Seq<char>>)) -> bool {
    &&& text::lower(p.0) == p.0
    &&& !p.0.contains('=')
    &&& !param_piece(p).contains(';')
    &&& param_piece(p).len() > 0
}

proof fn lemma_params_joined(ps: Seq<(Seq<char>, Option<Seq<char>>)>)
    requires
        ps.len() > 0,
    ensures
        uri::params_text(ps) == seq![';'] + text::join(param_pieces(ps), seq![';']),
    decreases ps.len(),
{
    reveal_strlit(";");
    reveal_strlit("=");
    let last = ps.last();
    let front = ps.drop_last();
    assert(uri::param_text(last.0, last.1) =~= seq![';'] + param_piece(last));
    if ps.len() == 1 {
        assert(uri::params_text(front) =~= seq![]);
        assert(uri::params_text(ps) =~= seq![';'] + param_piece(last));
    } else {
        lemma_params_joined(front);
        assert(param_pieces(ps).drop_last() =~= param_pieces(front));
        assert(param_pieces(ps).last() == param_piece(last));
        assert(uri::params_text(ps) =~= seq![';'] + text::join(param_pieces(ps), seq![';']));
    }
}

proof fn lemma_param_read(p: (Seq<char>, Option<Seq<char>>))
    requires
        param_writable(p),
    ensures
        uri::param_of(param_piece(p)) == p,
{
    reveal_strlit("=");
    match p.1 {
        Some(v) => {
            assert("="@ =~= seq!['=']);
            text::lemma_split_once_at(p.0, v, '=');
        },
        None => {
            text::lemma_split_once_none(p.0, '=');
        },
    }
}

proof fn lemma_params_read(ps: Seq<(Seq<char>, Option<Seq<char>>)>)
    requires
        forall|i: int| 0 <= i < ps.len() ==> param_writable(#[trigger] ps[i]),
    ensures
        uri::params_of(param_pieces(ps)) == ps,
    decreases ps.len(),
{
    if ps.len() > 0 {
        let front = ps.drop_last();
        assert forall|i: int| 0 <= i < front.len() implies param_writable(#[trigger] front[i]) by {
            assert(front[i] == ps[i]);
        }
        lemma_params_read(front);
        assert(param_pieces(ps).drop_last() =~= param_pieces(front));
        assert(param_writable(ps[ps.len() - 1]));
        lemma_param_read(ps.last());
        assert(uri::params_of(param_pieces(ps)) =~= front.push(ps.last()));
        assert(front.push(ps.last()) =~= ps);
    } else {
        assert(uri::params_of(param_pieces(ps)) =~= ps);
    }
}

// ------------------------------------------------------------------ headers of a URI

pub open spec fn header_pieces(hs: Seq<(Seq<char>, Seq<char>)>) -> Seq<Seq<char>> {
    Seq::new(hs.len(), |i: int| uri::uri_header_text(hs[i]))
}

/// A header of a URI that is read back as it was written.
pub open spec fn header_writable(h: (Seq<char>, Seq<char>)) -> bool {
    &&& !h.0.contains('=')
    &&& !uri::uri_header_text(h).contains('&')
}

proof fn lemma_headers_joined(hs: Seq<(Seq<char>, Seq<char>)>)
    requires
        hs.len() > 0,
    ensures
        uri::uri_headers_text(hs) == seq!['?'] + text::join(header_pieces(hs), seq!['&']),
    decreases hs.len(),
{
    reveal_strlit("?");
    reveal_strlit("&");
    assert("?"@ =~= seq!['?']);
    assert("&"@ =~= seq!['&']);
    if hs.len() > 1 {
        lemma_headers_joined(hs.drop_last());
        assert(header_pieces(hs).drop_last() =~= header_pieces(hs.drop_last()));
        assert(uri::uri_headers_text(hs) =~= seq!['?'] + text::join(header_pieces(hs), seq!['&']));
    }
}

proof fn lemma_headers_read(hs: Seq<(Seq<char>, Seq<char>)>)
    requires
        forall|i: int| 0 <= i < hs.len() ==> header_writable(#[trigger] hs[i]),
    ensures
        uri::uri_headers_of(header_pieces(hs)) == hs,
    decreases hs.len(),
{
    if hs.len() > 0 {
        let front = hs.drop_last();
        assert forall|i: int| 0 <= i < front.len() implies header_writable(#[trigger] front[i]) by {
            assert(front[i] == hs[i]);
        }
        lemma_headers_read(front);
        assert(header_pieces(hs).drop_last() =~= header_pieces(front));
        assert(header_writable(hs[hs.len() - 1]));
        reveal_strlit("=");
        assert("="@ =~= seq!['=']);
        text::lemma_split_once_at(hs.last().0, hs.last().1, '=');
        assert(front.push(hs.last()) =~= hs);
    } else {
        assert(uri::uri_headers_of(header_pieces(hs)) =~= hs);
    }
}

// ------------------------------------------------------------------ URIs

/// What stands between the scheme and the parameters.
pub open spec fn authority_text(u: Address) -> Seq<char> {
    uri::user_text(u) + u.host + uri::port_text(u.port)
}

/// A host and a port that are read back as they were written. A host with colons in it can stand
/// without a port where its end is not taken for one.
pub open spec fn host_writable(host: Seq<char>, port: Option<u16>) -> bool {
    &&& text::is_trimmed(host + uri::port_text(port))
    &&& !(host.len() > 0 && host[0] == '[' && host.contains(']'))
    &&& port.is_some() ==> !host.contains(':')
    &&& port.is_none() ==> (text::rsplit_once(host, ':') matches Some((h, p)) ==> h.contains(':')
        || uri::port_number(p).is_none())
}

/// A URI that is read back as it was written.
pub open spec fn uri_writable(u: Address) -> bool {
    &&& uri::known_scheme(u.scheme)
    &&& if u.scheme == "tel"@ {
        &&& u.user matches Some(n) && !n.contains('@') && text::is_trimmed(n)
        &&& u.password.is_none()
        &&& u.host.len() == 0
        &&& u.port.is_none()
    } else {
        &&& u.user matches Some(n) ==> !n.contains(':') && u.host.len() > 0
        &&& u.user.is_none() ==> u.password.is_none()
        &&& !u.host.contains('@')
        &&& host_writable(u.host, u.port)
    }
    &&& !authority_text(u).contains(';')
    &&& !(authority_text(u) + uri::params_text(u.params)).contains('?')
    &&& forall|i: int| 0 <= i < u.params.len() ==> param_writable(#[trigger] u.params[i])
    &&& forall|i: int| 0 <= i < u.headers.len() ==> header_writable(#[trigger] u.headers[i])
    &&& !text::is_space(uri::uri_text(u).last())
}

proof fn lemma_port_plain(port: Option<u16>, c: char)
    requires
        c != ':',
        !text::is_digit(c),
    ensures
        !uri::port_text(port).contains(c),
{
    reveal_strlit(":");
    if let Some(p) = port {
        text::lemma_dec_reads_back(p as nat);
        assert forall|i: int| 0 <= i < uri::port_text(port).len() implies uri::port_text(port)[i]
            != c by {
            if i > 0 {
                assert(uri::port_text(port)[i] == text::dec(p as nat)[i - 1]);
            }
        }
    }
}

proof fn lemma_host_read(host: Seq<char>, port: Option<u16>)
    requires
        host_writable(host, port),
    ensures
        uri::host_port_of(host + uri::port_text(port)) == (host, port),
{
    let t = host + uri::port_text(port);
    text::lemma_trimmed(t);
    reveal_strlit(":");
    assert(":"@ =~= seq![':']);
    if t.len() > 0 && t[0] == '[' {
        assert(host.len() > 0 && host[0] == '[');
        lemma_port_plain(port, ']');
        text::lemma_contains_concat(host, uri::port_text(port), ']');
        assert forall|i: int| 0 <= i < t.skip(1).len() implies t.skip(1)[i] != ']' by {
            assert(t.contains(t[i + 1]));
        }
        text::lemma_find_unique(t.skip(1), ']', t.skip(1).len() as int);
    }
    match port {
        Some(p) => {
            let d = text::dec(p as nat);
            text::lemma_dec_reads_back(p as nat);
            assert(!d.contains(':')) by {
                if d.contains(':') {
                    let i = choose|i: int| 0 <= i < d.len() && d[i] == ':';
                    assert(text::is_digit(d[i]));
                }
            }
            assert(t =~= host + seq![':'] + d);
            text::lemma_rsplit_once_at(host, d, ':');
            text::law_decimal_round_trip(p as nat, 65535);
        },
        None => {
            assert(t =~= host);
            if !host.contains(':') {
                text::lemma_rsplit_once_none(host, ':');
            }
        },
    }
}

proof fn lemma_authority_read(u: Address)
    requires
        uri_writable(u),
    ensures
        uri::authority_of(u.scheme, authority_text(u)) == (u.user, u.password, u.host, u.port),
{
    let a = authority_text(u);
    reveal_strlit(":");
    reveal_strlit("@");
    assert(":"@ =~= seq![':']);
    assert("@"@ =~= seq!['@']);
    if u.scheme == "tel"@ {
        let n = u.user->Some_0;
        assert(a =~= n);
        text::lemma_rsplit_once_none(n, '@');
        text::lemma_trimmed(n);
        assert(u.host =~= seq![]);
    } else {
        let hp = u.host + uri::port_text(u.port);
        lemma_host_read(u.host, u.port);
        lemma_port_plain(u.port, '@');
        text::lemma_contains_concat(u.host, uri::port_text(u.port), '@');
        match u.user {
            None => {
                assert(a =~= hp);
                text::lemma_rsplit_once_none(hp, '@');
            },
            Some(n) => {
                let info = n + (match u.password {
                    Some(p) => ":"@ + p,
                    None => seq![],
                });
                assert(a =~= info + seq!['@'] + hp);
                text::lemma_rsplit_once_at(info, hp, '@');
                match u.password {
                    Some(p) => {
                        assert(info =~= n + seq![':'] + p);
                        text::lemma_split_once_at(n, p, ':');
                    },
                    None => {
                        assert(info =~= n);
                        text::lemma_split_once_none(n, ':');
                    },
                }
            },
        }
    }
}

proof fn lemma_scheme(s: Seq<char>)
    requires
        uri::known_scheme(s),
    ensures
        !s.contains(':'),
        s.len() > 0,
        text::is_trimmed(s),
        text::lower(s) == s,
{
    reveal_strlit("sip");
    reveal_strlit("sips");
    reveal_strlit("tel");
    assert(text::lower(s) =~= s);
}

/// A URI is read back as it was written.
pub proof fn law_a_uri_reads_back(u: Address)
    requires
        uri_writable(u),
    ensures
        uri::uri_of(uri::uri_text(u)) == Some(u),
{
    let t = uri::uri_text(u);
    let a = authority_text(u);
    let p = uri::params_text(u.params);
    let h = uri::uri_headers_text(u.headers);
    reveal_strlit(":");
    assert(":"@ =~= seq![':']);
    lemma_scheme(u.scheme);
    assert(t =~= u.scheme + seq![':'] + (a + p + h));
    assert(t[0] == u.scheme[0]);
    text::lemma_trimmed(t);
    text::lemma_split_once_at(u.scheme, a + p + h, ':');
    text::lemma_trimmed(u.scheme);
    // The headers.
    if u.headers.len() == 0 {
        assert(u.headers =~= seq![]);
        assert(a + p + h =~= a + p);
        text::lemma_split_once_none(a + p, '?');
    } else {
        lemma_headers_joined(u.headers);
        let x = text::join(header_pieces(u.headers), seq!['&']);
        assert(a + p + h =~= (a + p) + seq!['?'] + x);
        text::lemma_split_once_at(a + p, x, '?');
        assert forall|i: int| 0 <= i < header_pieces(u.headers).len() implies !(
        #[trigger] header_pieces(u.headers)[i]).contains('&') by {
            assert(header_writable(u.headers[i]));
        }
        text::law_join_splits_back(header_pieces(u.headers), '&');
        lemma_headers_read(u.headers);
    }
    // The parameters.
    if u.params.len() == 0 {
        assert(u.params =~= seq![]);
        assert(a + p =~= a);
        text::lemma_split_once_none(a, ';');
    } else {
        lemma_params_joined(u.params);
        let x = text::join(param_pieces(u.params), seq![';']);
        assert(a + p =~= a + seq![';'] + x);
        text::lemma_split_once_at(a, x, ';');
        assert forall|i: int| 0 <= i < param_pieces(u.params).len() implies !(
        #[trigger] param_pieces(u.params)[i]).contains(';') by {
            assert(param_writable(u.params[i]));
        }
        text::law_join_splits_back(param_pieces(u.params), ';');
        lemma_params_read(u.params);
    }
    lemma_authority_read(u);
}

// ------------------------------------------------------------------ parties

/// A parameter of a party without the semicolon before it.
pub open spec fn pair_piece(p: (Seq<char>, Seq<char>)) -> Seq<char> {
    if p.1.len() == 0 {
        p.0
    } else {
        p.0 + "="@ + p.1
    }
}

pub open spec fn pair_pieces(ps: Seq<(Seq<char>, Seq<char>)>) -> Seq<Seq<char>> {
    Seq::new(ps.len(), |i: int| pair_piece(ps[i]))
}

/// A parameter of a party that is read back as it was written.
pub open spec fn pair_writable(p: (Seq<char>, Seq<char>)) -> bool {
    &&& text::lower(p.0) == p.0
    &&& text::is_trimmed(p.0)
    &&& text::is_trimmed(p.1)
    &&& !p.0.contains('=')
    &&& !pair_piece(p).contains(';')
    &&& pair_piece(p).len() > 0
}

/// A party that is read back as it was written.
pub open spec fn party_writable(p: Party) -> bool {
    &&& uri_writable(p.uri)
    &&& !uri::uri_text(p.uri).contains('>')
    &&& p.display matches Some(d) ==> !d.contains('"')
    &&& forall|i: int| 0 <= i < p.params.len() ==> pair_writable(#[trigger] p.params[i])
}

proof fn lemma_pairs_joined(ps: Seq<(Seq<char>, Seq<char>)>)
    requires
        ps.len() > 0,
    ensures
        uri::pairs_text(ps) == seq![';'] + text::join(pair_pieces(ps), seq![';']),
    decreases ps.len(),
{
    reveal_strlit(";");
    reveal_strlit("=");
    let last = ps.last();
    let front = ps.drop_last();
    assert(uri::pair_text(last.0, last.1) =~= seq![';'] + pair_piece(last));
    if ps.len() == 1 {
        assert(uri::pairs_text(front) =~= seq![]);
        assert(uri::pairs_text(ps) =~= seq![';'] + pair_piece(last));
    } else {
        lemma_pairs_joined(front);
        assert(pair_pieces(ps).drop_last() =~= pair_pieces(front));
        assert(pair_pieces(ps).last() == pair_piece(last));
        assert(uri::pairs_text(ps) =~= seq![';'] + text::join(pair_pieces(ps), seq![';']));
    }
}

proof fn lemma_equals_is_no_space()
    ensures
        !text::is_space('='),
        !text::is_space(';'),
        !text::is_space('<'),
        !text::is_space('>'),
        !text::is_space('"'),
        text::is_space(' '),
{
}

proof fn lemma_pair_read(p: (Seq<char>, Seq<char>))
    requires
        pair_writable(p),
    ensures
        text::is_trimmed(pair_piece(p)),
        text::trim(pair_piece(p)) == pair_piece(p),
        uri::pair_of(pair_piece(p)) == p,
{
    reveal_strlit("=");
    assert("="@ =~= seq!['=']);
    lemma_equals_is_no_space();
    let s = pair_piece(p);
    if p.1.len() == 0 {
        text::lemma_split_once_none(p.0, '=');
        assert(p.1 =~= seq![]);
    } else {
        assert(s =~= p.0 + seq!['='] + p.1);
        if p.0.len() > 0 {
            assert(s[0] == p.0[0]);
        } else {
            assert(s[0] == '=');
        }
        assert(s.last() == p.1.last());
        text::lemma_split_once_at(p.0, p.1, '=');
        text::lemma_trimmed(p.0);
        text::lemma_trimmed(p.1);
    }
    text::lemma_trimmed(s);
}

proof fn lemma_pairs_read(ps: Seq<(Seq<char>, Seq<char>)>)
    requires
        forall|i: int| 0 <= i < ps.len() ==> pair_writable(#[trigger] ps[i]),
    ensures
        uri::pairs_of(pair_pieces(ps)) == ps,
    decreases ps.len(),
{
    if ps.len() > 0 {
        let front = ps.drop_last();
        assert forall|i: int| 0 <= i < front.len() implies pair_writable(#[trigger] front[i]) by {
            assert(front[i] == ps[i]);
        }
        lemma_pairs_read(front);
        assert(pair_pieces(ps).drop_last() =~= pair_pieces(front));
        assert(pair_writable(ps[ps.len() - 1]));
        lemma_pair_read(ps.last());
        assert(front.push(ps.last()) =~= ps);
    } else {
        assert(uri::pairs_of(pair_pieces(ps)) =~= ps);
    }
}

/// The last character of parts joined is that of the last part.
proof fn lemma_join_last(parts: Seq<Seq<char>>, sep: Seq<char>)
    requires
        parts.len() > 0,
        parts.last().len() > 0,
    ensures
        text::join(parts, sep).len() > 0,
        text::join(parts, sep).last() == parts.last().last(),
{
}

proof fn lemma_join_first(parts: Seq<Seq<char>>, sep: Seq<char>)
    requires
        parts.len() > 0,
        parts[0].len() > 0,
    ensures
        text::join(parts, sep).len() > 0,
        text::join(parts, sep)[0] == parts[0][0],
    decreases parts.len(),
{
    if parts.len() > 1 {
        lemma_join_first(parts.drop_last(), sep);
    }
}

/// The parameters behind the bracket are read back.
proof fn lemma_pairs_text_read(ps: Seq<(Seq<char>, Seq<char>)>)
    requires
        forall|i: int| 0 <= i < ps.len() ==> pair_writable(#[trigger] ps[i]),
    ensures
        text::is_trimmed(uri::pairs_text(ps)),
        uri::pairs_of(text::split(text::strip_start(uri::pairs_text(ps), ';'), ';')) == ps,
{
    let x = uri::pairs_text(ps);
    if ps.len() == 0 {
        assert(x =~= seq![]);
        assert(text::split(x, ';') =~= seq![x]);
        assert(seq![x].drop_last() =~= seq![]);
        assert(uri::pairs_of(Seq::<Seq<char>>::empty()) =~= seq![]);
        assert(uri::pairs_of(seq![x]) =~= ps);
    } else {
        lemma_pairs_joined(ps);
        let pieces = pair_pieces(ps);
        let j = text::join(pieces, seq![';']);
        assert forall|i: int| 0 <= i < pieces.len() implies !(#[trigger] pieces[i]).contains(
            ';',
        ) by {
            assert(pair_writable(ps[i]));
        }
        text::law_join_splits_back(pieces, ';');
        lemma_pairs_read(ps);
        assert(pair_writable(ps[0]));
        assert(pair_writable(ps[ps.len() - 1]));
        lemma_pair_read(ps[ps.len() - 1]);
        lemma_join_first(pieces, seq![';']);
        lemma_join_last(pieces, seq![';']);
        assert(pieces[0].contains(pieces[0][0]));
        assert(x.skip(1) =~= j);
        assert(x[0] == ';');
        assert(text::strip_start(x, ';') == text::strip_start(j, ';'));
        assert(text::strip_start(j, ';') == j);
        lemma_equals_is_no_space();
        assert(x.last() == j.last());
    }
}

/// The display name comes off in front of the bracket.
proof fn lemma_display_read(display: Option<Seq<char>>, rest: Seq<char>)
    requires
        display matches Some(d) ==> !d.contains('"'),
        rest.len() > 0,
        rest[0] == '<',
    ensures
        uri::display_of(uri::display_text(display) + rest) == Some((display, rest)),
        (uri::display_text(display) + rest)[0] == '"' || (uri::display_text(display) + rest)[0]
            == '<',
{
    let t = uri::display_text(display) + rest;
    lemma_equals_is_no_space();
    match display {
        Some(d) => {
            assert("\""@ =~= seq!['"'] && "\" "@ =~= seq!['"', ' ']) by {
                reveal_strlit("\"");
                reveal_strlit("\" ");
            }
            let after = seq![' '] + rest;
            assert(t[0] == '"');
            assert(t.skip(1) =~= d + seq!['"'] + after);
            text::lemma_split_once_at(d, after, '"');
            text::lemma_find(t.skip(1), '"');
            assert(after.skip(1) =~= rest);
            assert(text::trim_start(after) == text::trim_start(rest));
            assert(text::trim_start(rest) == rest);
        },
        None => {
            assert(t =~= rest);
            assert(text::find(t, '<') == 0);
            assert(t.take(0) =~= seq![]);
            assert(t.skip(0) =~= t);
            assert(text::trim(Seq::<char>::empty()) =~= seq![]);
        },
    }
}

/// The URI comes out of its brackets.
proof fn lemma_target_read(u: Seq<char>, x: Seq<char>)
    requires
        !u.contains('>'),
        text::is_trimmed(x),
    ensures
        uri::target_of(seq!['<'] + (u + seq!['>'] + x)) == Some((u, x)),
{
    let inner = u + seq!['>'] + x;
    let rest = seq!['<'] + inner;
    assert(rest.skip(1) =~= inner);
    text::lemma_split_once_at(u, x, '>');
    text::lemma_find(inner, '>');
    assert(text::trim_start(x) == x);
}

/// A party is read back as it was written.
pub proof fn law_a_party_reads_back(p: Party)
    requires
        party_writable(p),
    ensures
        uri::party_of(uri::party_text(p)) == Some(p),
{
    let t = uri::party_text(p);
    let u = uri::uri_text(p.uri);
    let x = uri::pairs_text(p.params);
    let d = uri::display_text(p.display);
    assert("<"@ =~= seq!['<'] && ">"@ =~= seq!['>']) by {
        reveal_strlit("<");
        reveal_strlit(">");
    }
    lemma_equals_is_no_space();
    lemma_pairs_text_read(p.params);
    let rest = seq!['<'] + (u + seq!['>'] + x);
    assert(t =~= d + rest);
    lemma_display_read(p.display, rest);
    assert(t.last() == (if x.len() > 0 { x.last() } else { '>' }));
    text::lemma_trimmed(t);
    lemma_target_read(u, x);
    law_a_uri_reads_back(p.uri);
}

// ------------------------------------------------------------------ one parameter set

proof fn lemma_lower_twice(s: Seq<char>)
    ensures
        text::lower(text::lower(s)) == text::lower(s),
{
    assert(text::lower(text::lower(s)) =~= text::lower(s));
}

proof fn lemma_find_param_push(
    ps: Seq<(Seq<char>, Option<Seq<char>>)>,
    p: (Seq<char>, Option<Seq<char>>),
    name: Seq<char>,
)
    ensures
        uri::find_param(ps.push(p), name) == match uri::find_param(ps, name) {
            Some(v) => Some(v),
            None => if text::eq_nocase(p.0, name) {
                Some(p.1)
            } else {
                None
            },
        },
    decreases ps.len(),
{
    let all = ps.push(p);
    if ps.len() == 0 {
        assert(all.skip(1) =~= seq![]);
        assert(uri::find_param(all.skip(1), name).is_none());
    } else {
        assert(all[0] == ps[0]);
        assert(all.skip(1) =~= ps.skip(1).push(p));
        lemma_find_param_push(ps.skip(1), p, name);
    }
}

proof fn lemma_without_param(
    ps: Seq<(Seq<char>, Option<Seq<char>>)>,
    name: Seq<char>,
    other: Seq<char>,
)
    ensures
        text::eq_nocase(other, name) ==> uri::find_param(
            uri::without_param(ps, name),
            other,
        ).is_none(),
        !text::eq_nocase(other, name) ==> uri::find_param(uri::without_param(ps, name), other)
            == uri::find_param(ps, other),
    decreases ps.len(),
{
    if ps.len() > 0 {
        let front = ps.drop_last();
        lemma_without_param(front, name, other);
        assert(ps =~= front.push(ps.last()));
        lemma_find_param_push(front, ps.last(), other);
        lemma_find_param_push(uri::without_param(front, name), ps.last(), other);
    }
}

/// A parameter that is set is the one that is found, and the others stay as they were.
pub proof fn law_a_set_parameter_is_found(
    ps: Seq<(Seq<char>, Option<Seq<char>>)>,
    name: Seq<char>,
    value: Option<Seq<char>>,
    other: Seq<char>,
)
    ensures
        uri::find_param(uri::without_param(ps, name).push((name, value)), name) == Some(value),
        !text::eq_nocase(other, name) ==> uri::find_param(
            uri::without_param(ps, name).push((name, value)),
            other,
        ) == uri::find_param(ps, other),
{
    lemma_without_param(ps, name, name);
    lemma_without_param(ps, name, other);
    lemma_find_param_push(uri::without_param(ps, name), (name, value), name);
    lemma_find_param_push(uri::without_param(ps, name), (name, value), other);
}

proof fn lemma_pair_value_push(
    ps: Seq<(Seq<char>, Seq<char>)>,
    p: (Seq<char>, Seq<char>),
    name: Seq<char>,
)
    ensures
        uri::pair_value(ps.push(p), name) == match uri::pair_value(ps, name) {
            Some(v) => Some(v),
            None => if text::eq_nocase(p.0, name) {
                Some(p.1)
            } else {
                None
            },
        },
    decreases ps.len(),
{
    let all = ps.push(p);
    if ps.len() == 0 {
        assert(all.skip(1) =~= seq![]);
        assert(uri::pair_value(all.skip(1), name).is_none());
    } else {
        assert(all[0] == ps[0]);
        assert(all.skip(1) =~= ps.skip(1).push(p));
        lemma_pair_value_push(ps.skip(1), p, name);
    }
}

proof fn lemma_without_pair(ps: Seq<(Seq<char>, Seq<char>)>, name: Seq<char>, other: Seq<char>)
    ensures
        text::eq_nocase(other, name) ==> uri::pair_value(
            uri::without_pair(ps, name),
            other,
        ).is_none(),
        !text::eq_nocase(other, name) ==> uri::pair_value(uri::without_pair(ps, name), other)
            == uri::pair_value(ps, other),
    decreases ps.len(),
{
    if ps.len() > 0 {
        let front = ps.drop_last();
        lemma_without_pair(front, name, other);
        assert(ps =~= front.push(ps.last()));
        lemma_pair_value_push(front, ps.last(), other);
        lemma_pair_value_push(uri::without_pair(front, name), ps.last(), other);
    }
}

/// The parameter of a party that is set is the one that is found; the other parameters, the URI and
/// the display name stay as they were.
pub proof fn law_a_set_party_parameter_is_found(
    p: Party,
    name: Seq<char>,
    value: Seq<char>,
    other: Seq<char>,
)
    ensures
        uri::pair_value(uri::party_with(p, name, value).params, name) == Some(value),
        !text::eq_nocase(other, name) ==> uri::pair_value(
            uri::party_with(p, name, value).params,
            other,
        ) == uri::pair_value(p.params, other),
        uri::party_with(p, name, value).uri == p.uri,
        uri::party_with(p, name, value).display == p.display,
{
    lemma_lower_twice(name);
    lemma_without_pair(p.params, name, name);
    lemma_without_pair(p.params, name, other);
    lemma_pair_value_push(uri::without_pair(p.params, name), (text::lower(name), value), name);
    lemma_pair_value_push(uri::without_pair(p.params, name), (text::lower(name), value), other);
}


// ------------------------------------------------------------------ Via values

/// A Via without its protocol.
pub open spec fn sent_by_text(v: Hop) -> Seq<char> {
    v.host + uri::port_text(v.port) + uri::params_text(v.params)
}

/// A Via that is read back as it was written.
pub open spec fn via_writable(v: Hop) -> bool {
    &&& v.protocol.len() > 0
    &&& forall|i: int| 0 <= i < v.protocol.len() ==> !text::is_space(#[trigger] v.protocol[i])
    &&& sent_by_text(v).len() > 0
    &&& text::is_trimmed(sent_by_text(v))
    &&& !message::via_text(v).contains(',')
    &&& host_writable(v.host, v.port)
    &&& !v.host.contains(';')
    &&& forall|i: int|
        0 <= i < v.params.len() ==> param_writable(#[trigger] v.params[i]) && text::is_trimmed(
            param_piece(v.params[i]),
        )
}

pub proof fn lemma_find_space_at(a: Seq<char>, b: Seq<char>)
    requires
        forall|i: int| 0 <= i < a.len() ==> !text::is_space(#[trigger] a[i]),
        b.len() > 0 ==> text::is_space(b[0]),
    ensures
        text::find_space(a + b) == a.len(),
    decreases a.len(),
{
    if a.len() == 0 {
        assert(a + b =~= b);
    } else {
        assert((a + b)[0] == a[0]);
        assert((a + b).skip(1) =~= a.skip(1) + b);
        assert forall|i: int| 0 <= i < a.skip(1).len() implies !text::is_space(
            #[trigger] a.skip(1)[i],
        ) by {
            assert(a.skip(1)[i] == a[i + 1]);
        }
        lemma_find_space_at(a.skip(1), b);
    }
}

/// A Via is read back as it was written.
#[verifier::rlimit(30)]
pub proof fn law_a_via_reads_back(v: Hop)
    requires
        via_writable(v),
    ensures
        message::via_of(message::via_text(v)) == Some(v),
{
    let t = message::via_text(v);
    let rest = sent_by_text(v);
    let hp = v.host + uri::port_text(v.port);
    reveal_strlit(" ");
    lemma_equals_is_no_space();
    assert(" "@ =~= seq![' ']);
    assert(t =~= v.protocol + (seq![' '] + rest));
    text::lemma_split_once_none(t, ',');
    assert(t.take(t.len() as int) =~= t);
    assert(t[0] == v.protocol[0]);
    assert(t.last() == rest.last());
    text::lemma_trimmed(t);
    lemma_find_space_at(v.protocol, seq![' '] + rest);
    assert(t.take(v.protocol.len() as int) =~= v.protocol);
    assert(t.skip(v.protocol.len() as int + 1) =~= rest);
    text::lemma_trimmed(rest);
    lemma_host_read(v.host, v.port);
    lemma_port_plain(v.port, ';');
    text::lemma_contains_concat(v.host, uri::port_text(v.port), ';');
    if v.params.len() == 0 {
        assert(v.params =~= seq![]);
        assert(rest =~= hp);
        text::lemma_split_once_none(hp, ';');
    } else {
        lemma_params_joined(v.params);
        let pieces = param_pieces(v.params);
        let x = text::join(pieces, seq![';']);
        assert(rest =~= hp + seq![';'] + x);
        text::lemma_split_once_at(hp, x, ';');
        assert forall|i: int| 0 <= i < pieces.len() implies !(#[trigger] pieces[i]).contains(
            ';',
        ) && text::trim(pieces[i]) == pieces[i] by {
            assert(param_writable(v.params[i]));
            text::lemma_trimmed(pieces[i]);
        }
        text::law_join_splits_back(pieces, ';');
        assert(message::trimmed_parts(pieces) =~= pieces);
        lemma_params_read(v.params);
    }
}

} // verus!
