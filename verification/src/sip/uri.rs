//! SIP URIs and name-addr values.
use vstd::prelude::*;

use crate::text;

verus! {

// ------------------------------------------------------------------ parameter lists

/// A list of parameters, each with or without a value.
pub open spec fn params_view(v: Seq<(String, Option<String>)>) -> Seq<
    (Seq<char>, Option<Seq<char>>),
> {
    Seq::new(v.len(), |i: int| (v[i].0@, text::opt_text(v[i].1)))
}

/// The first parameter of a name, up to case.
pub open spec fn find_param(ps: Seq<(Seq<char>, Option<Seq<char>>)>, name: Seq<char>) -> Option<
    Option<Seq<char>>,
>
    decreases ps.len(),
{
    if ps.len() == 0 {
        None
    } else if text::eq_nocase(ps[0].0, name) {
        Some(ps[0].1)
    } else {
        find_param(ps.skip(1), name)
    }
}

/// The value of the first parameter of a name.
pub open spec fn param_value(ps: Seq<(Seq<char>, Option<Seq<char>>)>, name: Seq<char>) -> Option<
    Seq<char>,
> {
    match find_param(ps, name) {
        Some(v) => v,
        None => None,
    }
}

/// The parameters of other names.
pub open spec fn without_param(
    ps: Seq<(Seq<char>, Option<Seq<char>>)>,
    name: Seq<char>,
) -> Seq<(Seq<char>, Option<Seq<char>>)>
    decreases ps.len(),
{
    if ps.len() == 0 {
        seq![]
    } else if text::eq_nocase(ps.last().0, name) {
        without_param(ps.drop_last(), name)
    } else {
        without_param(ps.drop_last(), name).push(ps.last())
    }
}

/// A parameter as it is written.
pub open spec fn param_text(k: Seq<char>, v: Option<Seq<char>>) -> Seq<char> {
    match v {
        Some(v) => ";"@ + k + "="@ + v,
        None => ";"@ + k,
    }
}

pub open spec fn params_text(ps: Seq<(Seq<char>, Option<Seq<char>>)>) -> Seq<char>
    decreases ps.len(),
{
    if ps.len() == 0 {
        seq![]
    } else {
        params_text(ps.drop_last()) + param_text(ps.last().0, ps.last().1)
    }
}

/// A parameter read: the name in lower case, and the value behind an equals sign.
pub open spec fn param_of(p: Seq<char>) -> (Seq<char>, Option<Seq<char>>) {
    match text::split_once(p, '=') {
        Some((k, v)) => (text::lower(k), Some(v)),
        None => (text::lower(p), None),
    }
}

/// The parameters of a list of parts, the empty ones left out.
pub open spec fn params_of(parts: Seq<Seq<char>>) -> Seq<(Seq<char>, Option<Seq<char>>)>
    decreases parts.len(),
{
    if parts.len() == 0 {
        seq![]
    } else if parts.last().len() == 0 {
        params_of(parts.drop_last())
    } else {
        params_of(parts.drop_last()).push(param_of(parts.last()))
    }
}

pub(crate) fn lookup_param<'a>(ps: &'a Vec<(String, Option<String>)>, name: &str) -> (r: Option<
    Option<&'a str>,
>)
    ensures
        match r {
            Some(v) => find_param(params_view(ps@), name@) == Some(text::opt_str(v)),
            None => find_param(params_view(ps@), name@).is_none(),
        },
{
    let ghost all = params_view(ps@);
    let mut i: usize = 0;
    assert(all.skip(0) =~= all);
    while i < ps.len()
        invariant
            i <= ps@.len(),
            all == params_view(ps@),
            find_param(all, name@) == find_param(all.skip(i as int), name@),
        decreases ps@.len() - i,
    {
        if text::str_is_nocase(ps[i].0.as_str(), name) {
            return match &ps[i].1 {
                Some(v) => Some(Some(v.as_str())),
                None => Some(None),
            };
        }
        assert(all.skip(i as int).skip(1) =~= all.skip(i + 1));
        i += 1;
    }
    None
}

pub(crate) fn copy_params(ps: &Vec<(String, Option<String>)>) -> (r: Vec<(String, Option<String>)>)
    ensures
        params_view(r@) == params_view(ps@),
{
    let mut out: Vec<(String, Option<String>)> = Vec::new();
    let mut i: usize = 0;
    let ghost all = params_view(ps@);
    assert(params_view(out@) =~= all.take(0));
    while i < ps.len()
        invariant
            i <= ps@.len(),
            all == params_view(ps@),
            params_view(out@) == all.take(i as int),
        decreases ps@.len() - i,
    {
        let ghost before = out@;
        let item = (ps[i].0.clone(), text::copy_option(&ps[i].1));
        out.push(item);
        i += 1;
        proof {
            assert(params_view(out@) =~= params_view(before).push((item.0@, text::opt_text(item.1))));
            assert(params_view(out@) =~= all.take(i as int));
        }
    }
    assert(all.take(i as int) =~= all);
    out
}

pub(crate) fn replace_param(ps: &mut Vec<(String, Option<String>)>, name: &str, value: Option<&str>)
    ensures
        params_view(final(ps)@) == without_param(params_view(old(ps)@), name@).push(
            (name@, text::opt_str(value)),
        ),
{
    let mut out: Vec<(String, Option<String>)> = Vec::new();
    let mut i: usize = 0;
    let ghost all = params_view(ps@);
    assert(params_view(out@) =~= without_param(all.take(0), name@));
    while i < ps.len()
        invariant
            i <= ps@.len(),
            *ps == *old(ps),
            all == params_view(ps@),
            params_view(out@) == without_param(all.take(i as int), name@),
        decreases ps@.len() - i,
    {
        let ghost before = out@;
        proof {
            assert(all.take(i + 1).drop_last() =~= all.take(i as int));
            assert(all.take(i + 1).last() == all[i as int]);
        }
        if !text::str_is_nocase(ps[i].0.as_str(), name) {
            let item = (ps[i].0.clone(), text::copy_option(&ps[i].1));
            out.push(item);
            assert(params_view(out@) =~= params_view(before).push(all[i as int]));
        }
        i += 1;
    }
    assert(all.take(i as int) =~= all);
    let ghost before = out@;
    let v = match value {
        Some(v) => Some(text::owned(v)),
        None => None,
    };
    out.push((text::owned(name), v));
    assert(params_view(out@) =~= params_view(before).push((name@, text::opt_str(value))));
    *ps = out;
}

pub(crate) fn push_params(out: &mut String, ps: &Vec<(String, Option<String>)>)
    ensures
        final(out)@ == old(out)@ + params_text(params_view(ps@)),
{
    let ghost all = params_view(ps@);
    let mut i: usize = 0;
    assert(out@ =~= old(out)@ + params_text(all.take(0)));
    while i < ps.len()
        invariant
            i <= ps@.len(),
            all == params_view(ps@),
            out@ == old(out)@ + params_text(all.take(i as int)),
        decreases ps@.len() - i,
    {
        out.append(";");
        out.append(ps[i].0.as_str());
        if let Some(v) = &ps[i].1 {
            out.append("=");
            out.append(v.as_str());
        }
        i += 1;
        proof {
            assert(all.take(i as int).drop_last() =~= all.take(i - 1));
            assert(all.take(i as int).last() == all[i - 1]);
            assert(out@ =~= old(out)@ + params_text(all.take(i as int)));
        }
    }
    assert(all.take(i as int) =~= all);
}

fn read_param(p: &[char]) -> (r: (String, Option<String>))
    ensures
        (r.0@, text::opt_text(r.1)) == param_of(p@),
{
    match text::cut(p, '=') {
        Some((k, v)) => (
            text::string_of(text::lowercase(k).as_slice()),
            Some(text::string_of(v)),
        ),
        None => (text::string_of(text::lowercase(p).as_slice()), None),
    }
}

pub(crate) fn read_params(parts: &Vec<&[char]>) -> (r: Vec<(String, Option<String>)>)
    ensures
        params_view(r@) == params_of(text::slices(parts@)),
{
    let mut out: Vec<(String, Option<String>)> = Vec::new();
    let ghost all = text::slices(parts@);
    let mut i: usize = 0;
    assert(params_view(out@) =~= params_of(all.take(0)));
    while i < parts.len()
        invariant
            i <= parts@.len(),
            all == text::slices(parts@),
            params_view(out@) == params_of(all.take(i as int)),
        decreases parts@.len() - i,
    {
        let ghost before = out@;
        let part: &[char] = parts[i];
        proof {
            assert(all.take(i + 1).drop_last() =~= all.take(i as int));
            assert(all.take(i + 1).last() == part@);
        }
        if part.len() > 0 {
            let item = read_param(part);
            out.push(item);
            assert(params_view(out@) =~= params_view(before).push(param_of(part@)));
        }
        i += 1;
    }
    assert(all.take(i as int) =~= all);
    out
}

// ------------------------------------------------------------------ URIs

#[derive(Debug, PartialEq, Eq)]
pub struct Uri {
    pub scheme: String,
    pub user: Option<String>,
    pub password: Option<String>,
    pub host: String,
    pub port: Option<u16>,
    pub params: Vec<(String, Option<String>)>,
    pub headers: Vec<(String, String)>,
}

/// A URI, mathematically.
#[verifier::ext_equal]
pub struct Address {
    pub scheme: Seq<char>,
    pub user: Option<Seq<char>>,
    pub password: Option<Seq<char>>,
    pub host: Seq<char>,
    pub port: Option<u16>,
    pub params: Seq<(Seq<char>, Option<Seq<char>>)>,
    pub headers: Seq<(Seq<char>, Seq<char>)>,
}

impl View for Uri {
    type V = Address;

    open spec fn view(&self) -> Address {
        Address {
            scheme: self.scheme@,
            user: text::opt_text(self.user),
            password: text::opt_text(self.password),
            host: self.host@,
            port: self.port,
            params: params_view(self.params@),
            headers: text::pairs(self.headers@),
        }
    }
}

/// A host and a port, the host of an IPv6 reference without its brackets. What is not a port
/// belongs to the host.
pub open spec fn host_port_of(s: Seq<char>) -> (Seq<char>, Option<u16>) {
    let t = text::trim(s);
    let close = text::find(t.skip(1), ']');
    if t.len() > 0 && t[0] == '[' && close < t.len() - 1 {
        let after = t.skip(close + 2);
        (
            t.subrange(1, 1 + close),
            if after.len() > 0 && after[0] == ':' {
                port_number(after.skip(1))
            } else {
                None
            },
        )
    } else {
        match text::rsplit_once(t, ':') {
            Some((h, p)) => if !h.contains(':') && port_number(p).is_some() {
                (h, port_number(p))
            } else {
                (t, None)
            },
            None => (t, None),
        }
    }
}

pub open spec fn port_number(s: Seq<char>) -> Option<u16> {
    match text::number(s, 65535) {
        Some(n) => Some(n as u16),
        None => None,
    }
}

pub(crate) fn split_host_port_chars(s: &[char]) -> (r: (String, Option<u16>))
    ensures
        (r.0@, r.1) == host_port_of(s@),
{
    let t = text::trimmed(s);
    let n = t.len();
    if n > 0 && t[0] == '[' {
        let rest = text::skip(t, 1);
        let end = text::index_of(rest, ']');
        if end < rest.len() {
            let host = text::string_of(text::take(rest, end));
            assert(host@ =~= t@.subrange(1, 1 + end));
            let after = text::skip(rest, end + 1);
            assert(after@ =~= t@.skip(end + 2));
            let port = if after.len() > 0 && after[0] == ':' {
                text::parse_u16(text::skip(after, 1))
            } else {
                None
            };
            return (host, port);
        }
    }
    match text::cut_last(t, ':') {
        Some((h, p)) => if !text::contains_char(h, ':') {
            match text::parse_u16(p) {
                Some(port) => (text::string_of(h), Some(port)),
                None => (text::string_of(t), None),
            }
        } else {
            (text::string_of(t), None)
        },
        None => (text::string_of(t), None),
    }
}

pub fn split_host_port(s: &str) -> (r: (String, Option<u16>))
    ensures
        (r.0@, r.1) == host_port_of(s@),
{
    split_host_port_chars(text::chars_of(s).as_slice())
}

/// A host as it stands in a URI or a Via: an IPv6 address goes into brackets.
pub open spec fn wire_host(host: Seq<char>) -> Seq<char> {
    if host.contains(':') && !text::has_prefix(host, "["@) {
        "["@ + host + "]"@
    } else {
        host
    }
}

pub fn host_for_wire(host: &str) -> (r: String)
    ensures
        r@ == wire_host(host@),
{
    let c = text::chars_of(host);
    if text::contains_char(c.as_slice(), ':') && !text::starts_with(c.as_slice(), "[") {
        let mut out = text::owned("[");
        out.append(host);
        out.append("]");
        out
    } else {
        text::owned(host)
    }
}

/// The first part of a text and what follows the first `c`, if anything does.
pub open spec fn before_and_after(s: Seq<char>, c: char) -> (Seq<char>, Option<Seq<char>>) {
    match text::split_once(s, c) {
        Some((a, b)) => (a, Some(b)),
        None => (s, None),
    }
}

fn cut_optional(s: &[char], c: char) -> (r: (&[char], Option<&[char]>))
    ensures
        (r.0@, text::opt_slice(r.1)) == before_and_after(s@, c),
{
    match text::cut(s, c) {
        Some((a, b)) => (a, Some(b)),
        None => (s, None),
    }
}

/// The headers of a URI: the parts that hold an equals sign.
pub open spec fn uri_headers_of(parts: Seq<Seq<char>>) -> Seq<(Seq<char>, Seq<char>)>
    decreases parts.len(),
{
    if parts.len() == 0 {
        seq![]
    } else {
        match text::split_once(parts.last(), '=') {
            Some((k, v)) => uri_headers_of(parts.drop_last()).push((k, v)),
            None => uri_headers_of(parts.drop_last()),
        }
    }
}

fn read_uri_headers(parts: &Vec<&[char]>) -> (r: Vec<(String, String)>)
    ensures
        text::pairs(r@) == uri_headers_of(text::slices(parts@)),
{
    let mut out: Vec<(String, String)> = Vec::new();
    let ghost all = text::slices(parts@);
    let mut i: usize = 0;
    assert(text::pairs(out@) =~= uri_headers_of(all.take(0)));
    while i < parts.len()
        invariant
            i <= parts@.len(),
            all == text::slices(parts@),
            text::pairs(out@) == uri_headers_of(all.take(i as int)),
        decreases parts@.len() - i,
    {
        let ghost before = out@;
        let part: &[char] = parts[i];
        proof {
            assert(all.take(i + 1).drop_last() =~= all.take(i as int));
            assert(all.take(i + 1).last() == part@);
        }
        if let Some((k, v)) = text::cut(part, '=') {
            out.push((text::string_of(k), text::string_of(v)));
            assert(text::pairs(out@) =~= text::pairs(before).push((k@, v@)));
        }
        i += 1;
    }
    assert(all.take(i as int) =~= all);
    out
}

pub open spec fn known_scheme(s: Seq<char>) -> bool {
    s == "sip"@ || s == "sips"@ || s == "tel"@
}

/// What stands between the scheme and the parameters: user, password, host and port. A telephone
/// URI is all user and no host.
pub open spec fn authority_of(scheme: Seq<char>, s: Seq<char>) -> (
    Option<Seq<char>>,
    Option<Seq<char>>,
    Seq<char>,
    Option<u16>,
) {
    let (userinfo, hostport) = match text::rsplit_once(s, '@') {
        Some((u, h)) => (Some(u), h),
        None => (None, s),
    };
    let (user, password) = match userinfo {
        Some(ui) => {
            let (u, p) = before_and_after(ui, ':');
            (Some(u), p)
        },
        None => (None, None),
    };
    if scheme == "tel"@ {
        (Some(text::trim(hostport)), password, seq![], None)
    } else {
        let (h, p) = host_port_of(hostport);
        (user, password, h, p)
    }
}

/// The URI a text stands for.
pub open spec fn uri_of(s: Seq<char>) -> Option<Address> {
    match text::split_once(text::trim(s), ':') {
        None => None,
        Some((scheme, rest)) => {
            let scheme = text::lower(text::trim(scheme));
            if !known_scheme(scheme) {
                None
            } else {
                let (rest, headers) = before_and_after(rest, '?');
                let (authority, params) = before_and_after(rest, ';');
                let (user, password, host, port) = authority_of(scheme, authority);
                Some(
                    Address {
                        scheme,
                        user,
                        password,
                        host,
                        port,
                        params: match params {
                            Some(p) => params_of(text::split(p, ';')),
                            None => seq![],
                        },
                        headers: match headers {
                            Some(h) => uri_headers_of(text::split(h, '&')),
                            None => seq![],
                        },
                    },
                )
            }
        },
    }
}

/// A header of a URI as it is written.
pub open spec fn uri_header_text(h: (Seq<char>, Seq<char>)) -> Seq<char> {
    h.0 + "="@ + h.1
}

pub open spec fn uri_headers_text(hs: Seq<(Seq<char>, Seq<char>)>) -> Seq<char>
    decreases hs.len(),
{
    if hs.len() == 0 {
        seq![]
    } else if hs.len() == 1 {
        "?"@ + uri_header_text(hs[0])
    } else {
        uri_headers_text(hs.drop_last()) + "&"@ + uri_header_text(hs.last())
    }
}

pub open spec fn port_text(port: Option<u16>) -> Seq<char> {
    match port {
        Some(p) => ":"@ + text::dec(p as nat),
        None => seq![],
    }
}

/// The user part with its separator, which a URI without a host does not need.
pub open spec fn user_text(u: Address) -> Seq<char> {
    match u.user {
        None => seq![],
        Some(user) => user + (match u.password {
            Some(p) => ":"@ + p,
            None => seq![],
        }) + (if u.host.len() > 0 {
            "@"@
        } else {
            seq![]
        }),
    }
}

/// A URI as it is written.
pub open spec fn uri_text(u: Address) -> Seq<char> {
    u.scheme + ":"@ + user_text(u) + u.host + port_text(u.port) + params_text(u.params)
        + uri_headers_text(u.headers)
}

pub open spec fn bare_address(u: Address) -> Address {
    Address { password: None, params: seq![], headers: seq![], ..u }
}

impl Clone for Uri {
    fn clone(&self) -> (r: Self)
        ensures
            r@ == self@,
    {
        let r = Uri {
            scheme: self.scheme.clone(),
            user: text::copy_option(&self.user),
            password: text::copy_option(&self.password),
            host: self.host.clone(),
            port: self.port,
            params: copy_params(&self.params),
            headers: text::copy_pairs(&self.headers),
        };
        assert(r@ =~= self@);
        r
    }
}

impl Uri {
    pub fn new(user: Option<&str>, host: &str, port: Option<u16>) -> (r: Self)
        ensures
            r@ == (Address {
                scheme: "sip"@,
                user: text::opt_str(user),
                password: None,
                host: host@,
                port,
                params: seq![],
                headers: seq![],
            }),
    {
        let r = Self {
            scheme: text::owned("sip"),
            user: match user {
                Some(u) => Some(text::owned(u)),
                None => None,
            },
            password: None,
            host: text::owned(host),
            port,
            params: Vec::new(),
            headers: Vec::new(),
        };
        assert(r@.params =~= Seq::<(Seq<char>, Option<Seq<char>>)>::empty());
        assert(r@.headers =~= Seq::<(Seq<char>, Seq<char>)>::empty());
        r
    }

    pub fn parse(s: &str) -> (r: Option<Uri>)
        ensures
            match r {
                Some(u) => uri_of(s@) == Some(u@),
                None => uri_of(s@).is_none(),
            },
    {
        Uri::parse_chars(text::chars_of(s).as_slice())
    }

    pub(crate) fn parse_chars(s: &[char]) -> (r: Option<Uri>)
        ensures
            match r {
                Some(u) => uri_of(s@) == Some(u@),
                None => uri_of(s@).is_none(),
            },
    {
        let (scheme, rest) = match text::cut(text::trimmed(s), ':') {
            None => {
                return None;
            },
            Some((a, b)) => (a, b),
        };
        let scheme = text::lowercase(text::trimmed(scheme));
        if !(text::is(scheme.as_slice(), "sip") || text::is(scheme.as_slice(), "sips") || text::is(
            scheme.as_slice(),
            "tel",
        )) {
            return None;
        }
        // Headers stand behind '?', parameters behind ';'.
        let (rest, headers_part) = cut_optional(rest, '?');
        let (authority, params_part) = cut_optional(rest, ';');
        let (userinfo, hostport) = match text::cut_last(authority, '@') {
            Some((u, h)) => (Some(u), h),
            None => (None, authority),
        };
        let (user, password) = match userinfo {
            Some(ui) => {
                let (u, p) = cut_optional(ui, ':');
                (
                    Some(text::string_of(u)),
                    match p {
                        Some(p) => Some(text::string_of(p)),
                        None => None,
                    },
                )
            },
            None => (None, None),
        };
        // "tel:+821012345678" has no host part at all: the whole thing is the number, which is
        // what every caller of `user` is after.
        let (user, host, port) = if text::is(scheme.as_slice(), "tel") {
            (Some(text::string_of(text::trimmed(hostport))), String::new(), None)
        } else {
            let (host, port) = split_host_port_chars(hostport);
            (user, host, port)
        };
        let params = match params_part {
            Some(p) => read_params(&text::split_at_char(p, ';')),
            None => {
                let none: Vec<(String, Option<String>)> = Vec::new();
                assert(params_view(none@) =~= Seq::<(Seq<char>, Option<Seq<char>>)>::empty());
                none
            },
        };
        let headers = match headers_part {
            Some(h) => read_uri_headers(&text::split_at_char(h, '&')),
            None => {
                let none: Vec<(String, String)> = Vec::new();
                assert(text::pairs(none@) =~= Seq::<(Seq<char>, Seq<char>)>::empty());
                none
            },
        };
        Some(
            Uri {
                scheme: text::string_of(scheme.as_slice()),
                user,
                password,
                host,
                port,
                params,
                headers,
            },
        )
    }

    pub fn param(&self, name: &str) -> (r: Option<&str>)
        ensures
            text::opt_str(r) == param_value(self@.params, name@),
    {
        match lookup_param(&self.params, name) {
            Some(v) => v,
            None => None,
        }
    }

    pub fn has_param(&self, name: &str) -> (r: bool)
        ensures
            r == find_param(self@.params, name@).is_some(),
    {
        lookup_param(&self.params, name).is_some()
    }

    pub fn set_param(&mut self, name: &str, value: Option<&str>)
        ensures
            final(self)@ == (Address {
                params: without_param(old(self)@.params, name@).push((name@, text::opt_str(value))),
                ..old(self)@
            }),
    {
        replace_param(&mut self.params, name, value);
    }

    pub fn host_port(&self) -> (r: String)
        ensures
            r@ == self@.host + port_text(self@.port),
    {
        let mut out = self.host.clone();
        if let Some(p) = self.port {
            out.append(":");
            text::push_dec(&mut out, p as u64);
        }
        assert(out@ =~= self@.host + port_text(self@.port));
        out
    }

    /// URI without parameters and headers, used for dialog target comparison.
    pub fn bare(&self) -> (r: Uri)
        ensures
            r@ == bare_address(self@),
    {
        let r = Uri {
            scheme: self.scheme.clone(),
            user: text::copy_option(&self.user),
            password: None,
            host: self.host.clone(),
            port: self.port,
            params: Vec::new(),
            headers: Vec::new(),
        };
        assert(r@.params =~= Seq::<(Seq<char>, Option<Seq<char>>)>::empty());
        assert(r@.headers =~= Seq::<(Seq<char>, Seq<char>)>::empty());
        r
    }

    /// Transport parameter, defaulting to UDP.
    pub fn transport(&self) -> (r: String)
        ensures
            r@ == text::lower(
                match param_value(self@.params, "transport"@) {
                    Some(t) => t,
                    None => "udp"@,
                },
            ),
    {
        let t = match self.param("transport") {
            Some(t) => t,
            None => "udp",
        };
        text::string_of(text::lowercase(text::chars_of(t).as_slice()).as_slice())
    }

    /// The URI as it is written.
    pub fn to_string(&self) -> (r: String)
        ensures
            r@ == uri_text(self@),
    {
        let mut out = self.scheme.clone();
        out.append(":");
        let ghost o1 = out@;
        if let Some(u) = &self.user {
            out.append(u.as_str());
            if let Some(p) = &self.password {
                out.append(":");
                out.append(p.as_str());
            }
            // A tel: URI is all user and no host, so there is nothing for the separator to
            // separate.
            if !self.host.as_str().is_empty() {
                out.append("@");
            }
        }
        assert(out@ =~= o1 + user_text(self@));
        out.append(self.host.as_str());
        let ghost o2 = out@;
        if let Some(p) = self.port {
            out.append(":");
            text::push_dec(&mut out, p as u64);
        }
        assert(out@ =~= o2 + port_text(self@.port));
        push_params(&mut out, &self.params);
        push_uri_headers(&mut out, &self.headers);
        out
    }
}

fn same_option(a: &Option<String>, b: &Option<String>) -> (r: bool)
    ensures
        r == (text::opt_text(*a) == text::opt_text(*b)),
{
    match (a, b) {
        (Some(x), Some(y)) => text::str_is(x.as_str(), y.as_str()),
        (None, None) => true,
        _ => false,
    }
}

/// Whether two URIs name the same target, parameters and headers aside.
pub fn same_target(a: &Uri, b: &Uri) -> (r: bool)
    ensures
        r == (bare_address(a@) == bare_address(b@)),
{
    let r = text::str_is(a.scheme.as_str(), b.scheme.as_str()) && same_option(&a.user, &b.user)
        && text::str_is(a.host.as_str(), b.host.as_str()) && same_port(a.port, b.port);
    proof {
        if r {
            assert(bare_address(a@) =~= bare_address(b@));
        }
    }
    r
}

fn same_port(a: Option<u16>, b: Option<u16>) -> (r: bool)
    ensures
        r == (a == b),
{
    match (a, b) {
        (Some(x), Some(y)) => x == y,
        (None, None) => true,
        _ => false,
    }
}

fn push_uri_headers(out: &mut String, hs: &Vec<(String, String)>)
    ensures
        final(out)@ == old(out)@ + uri_headers_text(text::pairs(hs@)),
{
    let ghost all = text::pairs(hs@);
    let mut i: usize = 0;
    assert(out@ =~= old(out)@ + uri_headers_text(all.take(0)));
    while i < hs.len()
        invariant
            i <= hs@.len(),
            all == text::pairs(hs@),
            out@ == old(out)@ + uri_headers_text(all.take(i as int)),
        decreases hs@.len() - i,
    {
        if i == 0 {
            out.append("?");
        } else {
            out.append("&");
        }
        out.append(hs[i].0.as_str());
        out.append("=");
        out.append(hs[i].1.as_str());
        i += 1;
        proof {
            assert(all.take(i as int).drop_last() =~= all.take(i - 1));
            assert(all.take(i as int).last() == all[i - 1]);
            assert(out@ =~= old(out)@ + uri_headers_text(all.take(i as int)));
        }
    }
    assert(all.take(i as int) =~= all);
}

// ------------------------------------------------------------------ name-addr

/// `"Display" <sip:user@host>;tag=xyz`
#[derive(Debug)]
pub struct NameAddr {
    pub display: Option<String>,
    pub uri: Uri,
    pub params: Vec<(String, String)>,
}

/// A name-addr, mathematically.
#[verifier::ext_equal]
pub struct Party {
    pub display: Option<Seq<char>>,
    pub uri: Address,
    pub params: Seq<(Seq<char>, Seq<char>)>,
}

impl View for NameAddr {
    type V = Party;

    open spec fn view(&self) -> Party {
        Party {
            display: text::opt_text(self.display),
            uri: self.uri@,
            params: text::pairs(self.params@),
        }
    }
}

/// The first value of a name, up to case.
pub open spec fn pair_value(ps: Seq<(Seq<char>, Seq<char>)>, name: Seq<char>) -> Option<Seq<char>>
    decreases ps.len(),
{
    if ps.len() == 0 {
        None
    } else if text::eq_nocase(ps[0].0, name) {
        Some(ps[0].1)
    } else {
        pair_value(ps.skip(1), name)
    }
}

pub open spec fn without_pair(ps: Seq<(Seq<char>, Seq<char>)>, name: Seq<char>) -> Seq<
    (Seq<char>, Seq<char>),
>
    decreases ps.len(),
{
    if ps.len() == 0 {
        seq![]
    } else if text::eq_nocase(ps.last().0, name) {
        without_pair(ps.drop_last(), name)
    } else {
        without_pair(ps.drop_last(), name).push(ps.last())
    }
}

/// A header parameter read: name in lower case, value empty where there is none.
pub open spec fn pair_of(p: Seq<char>) -> (Seq<char>, Seq<char>) {
    match text::split_once(p, '=') {
        Some((k, v)) => (text::lower(text::trim(k)), text::trim(v)),
        None => (text::lower(p), seq![]),
    }
}

/// The header parameters of a list of parts, white space and empty ones left out.
pub open spec fn pairs_of(parts: Seq<Seq<char>>) -> Seq<(Seq<char>, Seq<char>)>
    decreases parts.len(),
{
    if parts.len() == 0 {
        seq![]
    } else if text::trim(parts.last()).len() == 0 {
        pairs_of(parts.drop_last())
    } else {
        pairs_of(parts.drop_last()).push(pair_of(text::trim(parts.last())))
    }
}

pub(crate) fn read_pairs(parts: &Vec<&[char]>) -> (r: Vec<(String, String)>)
    ensures
        text::pairs(r@) == pairs_of(text::slices(parts@)),
{
    let mut out: Vec<(String, String)> = Vec::new();
    let ghost all = text::slices(parts@);
    let mut i: usize = 0;
    assert(text::pairs(out@) =~= pairs_of(all.take(0)));
    while i < parts.len()
        invariant
            i <= parts@.len(),
            all == text::slices(parts@),
            text::pairs(out@) == pairs_of(all.take(i as int)),
        decreases parts@.len() - i,
    {
        let ghost before = out@;
        let part: &[char] = parts[i];
        proof {
            assert(all.take(i + 1).drop_last() =~= all.take(i as int));
            assert(all.take(i + 1).last() == part@);
        }
        let p = text::trimmed(part);
        if p.len() > 0 {
            let item = match text::cut(p, '=') {
                Some((k, v)) => (
                    text::string_of(text::lowercase(text::trimmed(k)).as_slice()),
                    text::string_of(text::trimmed(v)),
                ),
                None => (text::string_of(text::lowercase(p).as_slice()), String::new()),
            };
            out.push(item);
            assert(text::pairs(out@) =~= text::pairs(before).push(pair_of(p@)));
        }
        i += 1;
    }
    assert(all.take(i as int) =~= all);
    out
}

/// The display name, and what follows it; nothing where a quote is not closed.
pub open spec fn display_of(s: Seq<char>) -> Option<(Option<Seq<char>>, Seq<char>)> {
    let open = text::find(s, '<');
    if s.len() > 0 && s[0] == '"' {
        let t = s.skip(1);
        let end = text::find(t, '"');
        if end < t.len() {
            Some((Some(t.take(end)), text::trim_start(t.skip(end + 1))))
        } else {
            None
        }
    } else if open < s.len() {
        let d = text::trim(s.take(open));
        Some(
            (
                if d.len() == 0 {
                    None
                } else {
                    Some(d)
                },
                s.skip(open),
            ),
        )
    } else {
        Some((None, s))
    }
}

/// The URI and the parameters behind it; nothing where a bracket is not closed. The parameters of a
/// bare URI belong to the header.
pub open spec fn target_of(s: Seq<char>) -> Option<(Seq<char>, Seq<char>)> {
    if s.len() > 0 && s[0] == '<' {
        let t = s.skip(1);
        let end = text::find(t, '>');
        if end < t.len() {
            Some((t.take(end), text::trim_start(t.skip(end + 1))))
        } else {
            None
        }
    } else {
        match text::split_once(s, ';') {
            Some((u, p)) => Some((u, p)),
            None => Some((s, seq![])),
        }
    }
}

/// The name-addr a text stands for.
pub open spec fn party_of(s: Seq<char>) -> Option<Party> {
    match display_of(text::trim(s)) {
        None => None,
        Some((display, rest)) => match target_of(rest) {
            None => None,
            Some((uri, params)) => match uri_of(uri) {
                None => None,
                Some(uri) => Some(
                    Party {
                        display,
                        uri,
                        params: pairs_of(text::split(text::strip_start(params, ';'), ';')),
                    },
                ),
            },
        },
    }
}

pub open spec fn pair_text(k: Seq<char>, v: Seq<char>) -> Seq<char> {
    if v.len() == 0 {
        ";"@ + k
    } else {
        ";"@ + k + "="@ + v
    }
}

pub open spec fn pairs_text(ps: Seq<(Seq<char>, Seq<char>)>) -> Seq<char>
    decreases ps.len(),
{
    if ps.len() == 0 {
        seq![]
    } else {
        pairs_text(ps.drop_last()) + pair_text(ps.last().0, ps.last().1)
    }
}

pub open spec fn display_text(d: Option<Seq<char>>) -> Seq<char> {
    match d {
        Some(d) => "\""@ + d + "\" "@,
        None => seq![],
    }
}

/// A name-addr as it is written.
pub open spec fn party_text(p: Party) -> Seq<char> {
    display_text(p.display) + "<"@ + uri_text(p.uri) + ">"@ + pairs_text(p.params)
}

/// A name-addr with one parameter set.
pub open spec fn party_with(p: Party, name: Seq<char>, value: Seq<char>) -> Party {
    Party { params: without_pair(p.params, name).push((text::lower(name), value)), ..p }
}

impl Clone for NameAddr {
    fn clone(&self) -> (r: Self)
        ensures
            r@ == self@,
    {
        NameAddr {
            display: text::copy_option(&self.display),
            uri: self.uri.clone(),
            params: text::copy_pairs(&self.params),
        }
    }
}

impl NameAddr {
    pub fn new(uri: Uri) -> (r: Self)
        ensures
            r@ == (Party { display: None, uri: uri@, params: seq![] }),
    {
        let r = Self { display: None, uri, params: Vec::new() };
        assert(r@.params =~= Seq::<(Seq<char>, Seq<char>)>::empty());
        r
    }

    pub fn parse(s: &str) -> (r: Option<NameAddr>)
        ensures
            match r {
                Some(n) => party_of(s@) == Some(n@),
                None => party_of(s@).is_none(),
            },
    {
        let c = text::chars_of(s);
        let s = text::trimmed(c.as_slice());
        let open = text::index_of(s, '<');
        let (display, rest) = if s.len() > 0 && s[0] == '"' {
            let t = text::skip(s, 1);
            let end = text::index_of(t, '"');
            if end >= t.len() {
                return None;
            }
            (
                Some(text::string_of(text::take(t, end))),
                text::trimmed_start(text::skip(t, end + 1)),
            )
        } else if open < s.len() {
            let d = text::trimmed(text::take(s, open));
            (
                if d.len() == 0 {
                    None
                } else {
                    Some(text::string_of(d))
                },
                text::skip(s, open),
            )
        } else {
            (None, s)
        };
        let (uri, params) = if rest.len() > 0 && rest[0] == '<' {
            let t = text::skip(rest, 1);
            let end = text::index_of(t, '>');
            if end >= t.len() {
                return None;
            }
            (text::take(t, end), text::trimmed_start(text::skip(t, end + 1)))
        } else {
            match text::cut(rest, ';') {
                Some((u, p)) => (u, p),
                None => {
                    let none = text::skip(rest, rest.len());
                    assert(none@ =~= Seq::<char>::empty());
                    (rest, none)
                },
            }
        };
        match Uri::parse_chars(uri) {
            None => None,
            Some(uri) => {
                let parts = text::split_at_char(text::stripped_start(params, ';'), ';');
                Some(NameAddr { display, uri, params: read_pairs(&parts) })
            },
        }
    }

    pub fn param(&self, name: &str) -> (r: Option<&str>)
        ensures
            text::opt_str(r) == pair_value(self@.params, name@),
    {
        let ghost all = text::pairs(self.params@);
        let mut i: usize = 0;
        assert(all.skip(0) =~= all);
        while i < self.params.len()
            invariant
                i <= self.params@.len(),
                all == text::pairs(self.params@),
                pair_value(all, name@) == pair_value(all.skip(i as int), name@),
            decreases self.params@.len() - i,
        {
            if text::str_is_nocase(self.params[i].0.as_str(), name) {
                return Some(self.params[i].1.as_str());
            }
            assert(all.skip(i as int).skip(1) =~= all.skip(i + 1));
            i += 1;
        }
        None
    }

    pub fn tag(&self) -> (r: Option<&str>)
        ensures
            text::opt_str(r) == pair_value(self@.params, "tag"@),
    {
        self.param("tag")
    }

    pub fn with_tag(self, tag: &str) -> (r: Self)
        ensures
            r@ == party_with(self@, "tag"@, tag@),
    {
        let mut r = self;
        r.set_param("tag", Some(tag));
        r
    }

    pub fn set_param(&mut self, name: &str, value: Option<&str>)
        ensures
            final(self)@ == party_with(
                old(self)@,
                name@,
                match value {
                    Some(v) => v@,
                    None => seq![],
                },
            ),
    {
        let mut out: Vec<(String, String)> = Vec::new();
        let mut i: usize = 0;
        let ghost all = text::pairs(self.params@);
        assert(text::pairs(out@) =~= without_pair(all.take(0), name@));
        while i < self.params.len()
            invariant
                i <= self.params@.len(),
                *self == *old(self),
                all == text::pairs(self.params@),
                text::pairs(out@) == without_pair(all.take(i as int), name@),
            decreases self.params@.len() - i,
        {
            let ghost before = out@;
            proof {
                assert(all.take(i + 1).drop_last() =~= all.take(i as int));
                assert(all.take(i + 1).last() == all[i as int]);
            }
            if !text::str_is_nocase(self.params[i].0.as_str(), name) {
                out.push((self.params[i].0.clone(), self.params[i].1.clone()));
                assert(text::pairs(out@) =~= text::pairs(before).push(all[i as int]));
            }
            i += 1;
        }
        assert(all.take(i as int) =~= all);
        let ghost before = out@;
        let v = match value {
            Some(v) => text::owned(v),
            None => String::new(),
        };
        let k = text::string_of(text::lowercase(text::chars_of(name).as_slice()).as_slice());
        out.push((k, v));
        assert(text::pairs(out@) =~= text::pairs(before).push((k@, v@)));
        self.params = out;
    }

    /// The name-addr as it is written.
    pub fn to_string(&self) -> (r: String)
        ensures
            r@ == party_text(self@),
    {
        let mut out = String::new();
        if let Some(d) = &self.display {
            out.append("\"");
            out.append(d.as_str());
            out.append("\" ");
        }
        assert(out@ =~= display_text(self@.display));
        out.append("<");
        let uri = self.uri.to_string();
        out.append(uri.as_str());
        out.append(">");
        let ghost head = out@;
        let ghost all = text::pairs(self.params@);
        let mut i: usize = 0;
        assert(out@ =~= head + pairs_text(all.take(0)));
        while i < self.params.len()
            invariant
                i <= self.params@.len(),
                all == text::pairs(self.params@),
                out@ == head + pairs_text(all.take(i as int)),
            decreases self.params@.len() - i,
        {
            out.append(";");
            out.append(self.params[i].0.as_str());
            if !self.params[i].1.as_str().is_empty() {
                out.append("=");
                out.append(self.params[i].1.as_str());
            }
            i += 1;
            proof {
                assert(all.take(i as int).drop_last() =~= all.take(i - 1));
                assert(all.take(i as int).last() == all[i - 1]);
                assert(out@ =~= head + pairs_text(all.take(i as int)));
            }
        }
        assert(all.take(i as int) =~= all);
        out
    }
}

} // verus!
