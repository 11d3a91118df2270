//! What every request and response says of itself, and to whom a request is handed.
use vstd::prelude::*;

use super::auth;
use super::engine;
use super::engine::{Access, Element, Handling};
use super::message;
use super::message::{Fields, Method};
use super::register;
use super::registrar;
use super::round_trip;
use super::transport;
use super::transport::{Route, Transport};
use super::txn;
use super::uri;
use crate::config::{Sip, Upstream};
use crate::net;
use crate::net::{IpAddr, SocketAddr};
use crate::text;

verus! {

/// The names of the headers that are written here stand for themselves, and no two are the same.
pub proof fn lemma_names()
    ensures
        message::canonical_name("via"@) == "via"@,
        message::canonical_name("record-route"@) == "record-route"@,
        message::canonical_name("from"@) == "from"@,
        message::canonical_name("to"@) == "to"@,
        message::canonical_name("call-id"@) == "call-id"@,
        message::canonical_name("cseq"@) == "cseq"@,
        message::canonical_name("contact"@) == "contact"@,
        message::canonical_name("user-agent"@) == "user-agent"@,
        message::canonical_name("max-forwards"@) == "max-forwards"@,
        message::canonical_name("content-type"@) == "content-type"@,
        message::canonical_name("allow"@) == "allow"@,
        message::canonical_name("retry-after"@) == "retry-after"@,
        message::canonical_name("warning"@) == "warning"@,
        message::canonical_name("expires"@) == "expires"@,
        message::canonical_name("www-authenticate"@) == "www-authenticate"@,
        message::canonical_name("accept"@) == "accept"@,
        "via"@.len() == 3,
        "record-route"@.len() == 12,
        "from"@.len() == 4,
        "to"@.len() == 2,
        "call-id"@.len() == 7,
        "cseq"@.len() == 4,
        "contact"@.len() == 7,
        "user-agent"@.len() == 10,
        "max-forwards"@.len() == 12,
        "content-type"@.len() == 12,
        "allow"@.len() == 5,
        "retry-after"@.len() == 11,
        "warning"@.len() == 7,
        "expires"@.len() == 7,
        "www-authenticate"@.len() == 16,
        "accept"@.len() == 6,
        "record-route"@ != "max-forwards"@,
        "record-route"@ != "content-type"@,
        "from"@ != "cseq"@,
        "call-id"@ != "contact"@,
        "call-id"@ != "warning"@,
        "call-id"@ != "expires"@,
        "contact"@ != "warning"@,
        "contact"@ != "expires"@,
        "max-forwards"@ != "content-type"@,
        "warning"@ != "expires"@,
{
    reveal_strlit("via");
    reveal_strlit("record-route");
    reveal_strlit("from");
    reveal_strlit("to");
    reveal_strlit("call-id");
    reveal_strlit("cseq");
    reveal_strlit("contact");
    reveal_strlit("user-agent");
    reveal_strlit("max-forwards");
    reveal_strlit("content-type");
    reveal_strlit("allow");
    reveal_strlit("retry-after");
    reveal_strlit("warning");
    reveal_strlit("expires");
    reveal_strlit("www-authenticate");
    reveal_strlit("accept");
    assert(text::lower("via"@) =~= "via"@);
    assert(text::lower("record-route"@) =~= "record-route"@);
    assert(text::lower("from"@) =~= "from"@);
    assert(text::lower("to"@) =~= "to"@);
    assert(text::lower("call-id"@) =~= "call-id"@);
    assert(text::lower("cseq"@) =~= "cseq"@);
    assert(text::lower("contact"@) =~= "contact"@);
    assert(text::lower("user-agent"@) =~= "user-agent"@);
    assert(text::lower("max-forwards"@) =~= "max-forwards"@);
    assert(text::lower("content-type"@) =~= "content-type"@);
    assert(text::lower("allow"@) =~= "allow"@);
    assert(text::lower("retry-after"@) =~= "retry-after"@);
    assert(text::lower("warning"@) =~= "warning"@);
    assert(text::lower("expires"@) =~= "expires"@);
    assert(text::lower("www-authenticate"@) =~= "www-authenticate"@);
    assert(text::lower("accept"@) =~= "accept"@);
    message::lemma_plain_name("via"@);
    message::lemma_plain_name("record-route"@);
    message::lemma_plain_name("from"@);
    message::lemma_plain_name("to"@);
    message::lemma_plain_name("call-id"@);
    message::lemma_plain_name("cseq"@);
    message::lemma_plain_name("contact"@);
    message::lemma_plain_name("user-agent"@);
    message::lemma_plain_name("max-forwards"@);
    message::lemma_plain_name("content-type"@);
    message::lemma_plain_name("allow"@);
    message::lemma_plain_name("retry-after"@);
    message::lemma_plain_name("warning"@);
    message::lemma_plain_name("expires"@);
    message::lemma_plain_name("www-authenticate"@);
    message::lemma_plain_name("accept"@);
    assert("record-route"@[0] != "max-forwards"@[0]);
    assert("record-route"@[0] != "content-type"@[0]);
    assert("from"@[0] != "cseq"@[0]);
    assert("call-id"@[1] != "contact"@[1]);
    assert("call-id"@[0] != "warning"@[0]);
    assert("call-id"@[0] != "expires"@[0]);
    assert("contact"@[0] != "warning"@[0]);
    assert("contact"@[0] != "expires"@[0]);
    assert("max-forwards"@[0] != "content-type"@[0]);
    assert("warning"@[0] != "expires"@[0]);
}

// ------------------------------------------------------------------ headers that occur more than once

proof fn lemma_values_without(f: Fields, n: Seq<char>, m: Seq<char>)
    requires
        m != n,
    ensures
        message::values_of(message::without_name(f, n), m) == message::values_of(f, m),
    decreases f.len(),
{
    if f.len() > 0 {
        lemma_values_without(f.drop_last(), n, m);
        if f.last().0 != n {
            let w = message::without_name(f.drop_last(), n);
            assert(w.push(f.last()).drop_last() =~= w);
        }
    }
}

proof fn lemma_values_with(f: Fields, name: Seq<char>, value: Seq<char>, m: Seq<char>)
    requires
        m != message::canonical_name(name),
    ensures
        message::values_of(message::with_field(f, name, value), m) == message::values_of(f, m),
{
    let n = message::canonical_name(name);
    lemma_values_without(f, n, m);
    let w = message::without_name(f, n);
    assert(w.push((n, value)).drop_last() =~= w);
}

proof fn lemma_values_optional(f: Fields, name: Seq<char>, value: Option<Seq<char>>, m: Seq<char>)
    requires
        m != message::canonical_name(name),
    ensures
        message::values_of(message::with_optional(f, name, value), m) == message::values_of(f, m),
{
    match value {
        Some(v) => {
            lemma_values_with(f, name, v, m);
        },
        None => {},
    }
}

proof fn lemma_values_added(f: Fields, name: Seq<char>, values: Seq<Seq<char>>, m: Seq<char>)
    ensures
        message::values_of(message::with_values(f, name, values), m) == if m
            == message::canonical_name(name) {
            message::values_of(f, m) + values
        } else {
            message::values_of(f, m)
        },
    decreases values.len(),
{
    if values.len() > 0 {
        lemma_values_added(f, name, values.drop_last(), m);
        let w = message::with_values(f, name, values.drop_last());
        let x = (message::canonical_name(name), values.last());
        assert(w.push(x).drop_last() =~= w);
        if m == message::canonical_name(name) {
            assert(message::values_of(f, m) + values =~= (message::values_of(f, m)
                + values.drop_last()).push(values.last()));
        }
    } else {
        assert(message::values_of(f, m) + values =~= message::values_of(f, m));
    }
}

/// A header has a value exactly where it has values, and it is the first of them.
pub proof fn law_the_first_value_is_found(f: Fields, name: Seq<char>)
    ensures
        ({
            let all = message::values_of(f, message::canonical_name(name));
            &&& message::field(f, name).is_some() <==> all.len() > 0
            &&& all.len() > 0 ==> message::field(f, name) == Some(all[0])
        }),
{
    lemma_first_value(f, message::canonical_name(name));
}

proof fn lemma_first_value(f: Fields, n: Seq<char>)
    ensures
        message::values_of(f, n).len() > 0 ==> text::lookup(f, n) == Some(
            message::values_of(f, n)[0],
        ),
        message::values_of(f, n).len() == 0 ==> text::lookup(f, n).is_none(),
    decreases f.len(),
{
    if f.len() > 0 {
        let d = f.drop_last();
        lemma_first_value(d, n);
        lemma_lookup_last(f, n);
    }
}

proof fn lemma_lookup_last(f: Fields, n: Seq<char>)
    requires
        f.len() > 0,
    ensures
        text::lookup(f, n) == match text::lookup(f.drop_last(), n) {
            Some(v) => Some(v),
            None => if f.last().0 == n {
                Some(f.last().1)
            } else {
                None
            },
        },
    decreases f.len(),
{
    if f.len() == 1 {
        assert(f.drop_last() =~= seq![]);
        assert(f.skip(1) =~= seq![]);
        reveal_with_fuel(text::lookup, 2);
    } else if f[0].0 != n {
        lemma_lookup_last(f.skip(1), n);
        assert(f.skip(1).drop_last() =~= f.drop_last().skip(1));
    }
}

// ------------------------------------------------------------------ responses

/// A response says whose it is: it carries the Via and Record-Route headers of the request, all of
/// them in their order, and its From, Call-ID and CSeq as they stood. Its To is that of the request,
/// with a tag added where there was none and the response is more than a 100.
pub proof fn law_a_response_says_whose_it_is(
    user_agent: Seq<char>,
    req: message::Asked,
    code: u16,
    reason: Option<Seq<char>>,
    tag: Seq<char>,
)
    ensures
        ({
            let resp = engine::response_for(user_agent, req, code, reason, tag);
            &&& resp.code == code
            &&& resp.body.len() == 0
            &&& resp.reason == match reason {
                Some(t) => t,
                None => message::phrase(code),
            }
            &&& message::values_of(resp.headers, "via"@) == message::values_of(req.headers, "via"@)
            &&& message::values_of(resp.headers, "record-route"@) == message::values_of(
                req.headers,
                "record-route"@,
            )
            &&& message::field(resp.headers, "from"@) == message::field(req.headers, "from"@)
            &&& message::field(resp.headers, "call-id"@) == message::field(req.headers, "call-id"@)
            &&& message::field(resp.headers, "cseq"@) == message::field(req.headers, "cseq"@)
            &&& message::field(resp.headers, "user-agent"@) == Some(user_agent)
            &&& message::field(resp.headers, "contact"@).is_none()
            &&& message::field(resp.headers, "content-type"@).is_none()
            &&& match message::party_field(req.headers, "to"@) {
                Some(to) => if code == 100 || uri::pair_value(to.params, "tag"@).is_some() {
                    message::field(resp.headers, "to"@) == message::field(req.headers, "to"@)
                } else {
                    message::field(resp.headers, "to"@) == Some(
                        uri::party_text(uri::party_with(to, "tag"@, tag)),
                    )
                },
                None => message::field(resp.headers, "to"@) == message::field(req.headers, "to"@),
            }
        }),
{
    lemma_names();
    let f = req.headers;
    let via = message::values_of(f, "via"@);
    let routes = message::values_of(f, "record-route"@);
    let a = message::with_values(Fields::empty(), "via"@, via);
    let b = message::with_values(a, "record-route"@, routes);
    lemma_values_added(Fields::empty(), "via"@, via, "via"@);
    lemma_values_added(Fields::empty(), "via"@, via, "record-route"@);
    lemma_values_added(a, "record-route"@, routes, "via"@);
    lemma_values_added(a, "record-route"@, routes, "record-route"@);
    assert(Seq::<Seq<char>>::empty() + via =~= via);
    assert(Seq::<Seq<char>>::empty() + routes =~= routes);
    lemma_added_is_not(b, via, routes, "from"@);
    lemma_added_is_not(b, via, routes, "to"@);
    lemma_added_is_not(b, via, routes, "call-id"@);
    lemma_added_is_not(b, via, routes, "cseq"@);
    lemma_added_is_not(b, via, routes, "contact"@);
    lemma_added_is_not(b, via, routes, "content-type"@);
    let c = message::with_optional(b, "from"@, message::field(f, "from"@));
    let d = message::with_optional(c, "to"@, message::field(f, "to"@));
    let e = message::with_optional(d, "call-id"@, message::field(f, "call-id"@));
    let g = message::with_optional(e, "cseq"@, message::field(f, "cseq"@));
    assert(g == message::reply_fields(f));
    lemma_set(b, "from"@, message::field(f, "from"@));
    lemma_set(c, "to"@, message::field(f, "to"@));
    lemma_set(d, "call-id"@, message::field(f, "call-id"@));
    lemma_set(e, "cseq"@, message::field(f, "cseq"@));
    lemma_set(g, "user-agent"@, Some(user_agent));
    let h = message::with_field(g, "user-agent"@, user_agent);
    match message::party_field(h, "to"@) {
        Some(t) => {
            lemma_set(h, "to"@, Some(uri::party_text(uri::party_with(t, "tag"@, tag))));
        },
        None => {},
    }
}

proof fn lemma_added_is_not(b: Fields, via: Seq<Seq<char>>, routes: Seq<Seq<char>>, n: Seq<char>)
    requires
        b == message::with_values(
            message::with_values(Fields::empty(), "via"@, via),
            "record-route"@,
            routes,
        ),
        message::canonical_name("via"@) == "via"@,
        message::canonical_name("record-route"@) == "record-route"@,
        n != "via"@,
        n != "record-route"@,
    ensures
        text::lookup(b, n).is_none(),
{
    let a = message::with_values(Fields::empty(), "via"@, via);
    lemma_values_added(Fields::empty(), "via"@, via, n);
    lemma_values_added(a, "record-route"@, routes, n);
    lemma_first_value(b, n);
}

/// Setting a header that may have no value changes that header, where it has one, and no other.
pub proof fn lemma_set(f: Fields, name: Seq<char>, value: Option<Seq<char>>)
    requires
        message::canonical_name(name) == name,
    ensures
        ({
            let r = message::with_optional(f, name, value);
            &&& value.is_some() ==> text::lookup(r, name) == value
            &&& value.is_none() ==> r == f
            &&& forall|m: Seq<char>|
                m != name ==> #[trigger] text::lookup(r, m) == text::lookup(f, m)
            &&& forall|m: Seq<char>|
                m != name ==> #[trigger] message::values_of(r, m) == message::values_of(f, m)
        }),
{
    let r = message::with_optional(f, name, value);
    assert forall|m: Seq<char>| m != name implies #[trigger] message::values_of(r, m)
        == message::values_of(f, m) by {
        lemma_values_optional(f, name, value, m);
    }
    assert forall|m: Seq<char>| m != name implies #[trigger] text::lookup(r, m) == text::lookup(
        f,
        m,
    ) by {
        lemma_values_optional(f, name, value, m);
        lemma_first_value(f, m);
        lemma_first_value(r, m);
    }
    if let Some(v) = value {
        message::law_set_then_get(f, name, v, name);
    }
}

/// Removing a header changes no other.
pub proof fn lemma_cleared(f: Fields, name: Seq<char>)
    requires
        message::canonical_name(name) == name,
    ensures
        ({
            let r = message::without_name(f, name);
            &&& text::lookup(r, name).is_none()
            &&& forall|m: Seq<char>|
                m != name ==> #[trigger] text::lookup(r, m) == text::lookup(f, m)
            &&& forall|m: Seq<char>|
                m != name ==> #[trigger] message::values_of(r, m) == message::values_of(f, m)
        }),
{
    let r = message::without_name(f, name);
    message::law_remove_then_get(f, name, name);
    assert forall|m: Seq<char>| m != name implies #[trigger] message::values_of(r, m)
        == message::values_of(f, m) by {
        lemma_values_without(f, name, m);
    }
    assert forall|m: Seq<char>| m != name implies #[trigger] text::lookup(r, m) == text::lookup(
        f,
        m,
    ) by {
        lemma_values_without(f, name, m);
        lemma_first_value(f, m);
        lemma_first_value(r, m);
    }
}

/// A response goes back with the Via it came with, and in the first of them where the request really
/// came from: its address, and its port where the request asked for that. Nothing else of it changes.
pub proof fn law_a_response_finds_its_way_back(via: message::Hop, src: SocketAddr, other: Seq<char>)
    requires
        !text::eq_nocase(other, "received"@),
        !text::eq_nocase(other, "rport"@),
    ensures
        ({
            let a = engine::annotated(via, src);
            &&& a.protocol == via.protocol
            &&& a.host == via.host
            &&& a.port == via.port
            &&& uri::find_param(a.params, "received"@) == Some(Some(net::ip_text(src.ip)))
            &&& uri::find_param(via.params, "rport"@).is_some() ==> uri::find_param(
                a.params,
                "rport"@,
            ) == Some(Some(text::dec(src.port as nat)))
            &&& uri::find_param(via.params, "rport"@).is_none() ==> uri::find_param(
                a.params,
                "rport"@,
            ).is_none()
            &&& uri::find_param(a.params, other) == uri::find_param(via.params, other)
        }),
{
    reveal_strlit("received");
    reveal_strlit("rport");
    assert(text::lower("received"@).len() != text::lower("rport"@).len());
    let ip = Some(net::ip_text(src.ip));
    round_trip::law_a_set_parameter_is_found(via.params, "received"@, ip, "rport"@);
    round_trip::law_a_set_parameter_is_found(via.params, "received"@, ip, other);
    let ps = uri::without_param(via.params, "received"@).push(("received"@, ip));
    let port = Some(text::dec(src.port as nat));
    round_trip::law_a_set_parameter_is_found(ps, "rport"@, port, "received"@);
    round_trip::law_a_set_parameter_is_found(ps, "rport"@, port, other);
}

proof fn lemma_lookup_updated(f: Fields, k: int, x: (Seq<char>, Seq<char>), m: Seq<char>)
    requires
        0 <= k < f.len(),
        f[k].0 == x.0,
        m != x.0,
    ensures
        text::lookup(f.update(k, x), m) == text::lookup(f, m),
    decreases f.len(),
{
    let u = f.update(k, x);
    if k == 0 {
        assert(u.skip(1) =~= f.skip(1));
    } else {
        assert(u.skip(1) =~= f.skip(1).update(k - 1, x));
        lemma_lookup_updated(f.skip(1), k - 1, x, m);
    }
}

proof fn lemma_replaced(f: Fields, name: Seq<char>, value: Seq<char>, m: Seq<char>)
    requires
        message::canonical_name(name) == name,
        m != name,
        text::lookup(f, name).is_some(),
    ensures
        text::lookup(message::replaced_field(f, name, value), m) == text::lookup(f, m),
        text::lookup(message::replaced_field(f, name, value), name) == Some(value),
{
    message::law_replace_first_keeps_the_rest(f, name, value);
    message::lemma_first_field(f, name);
    let k = message::first_field(f, name);
    if 0 <= k < f.len() {
        lemma_lookup_updated(f, k, (name, value), m);
    }
}

/// A response is sent as it was made, but that its Via says where the request came from, and that one
/// that opens or continues a dialog says where this side is where it does not yet.
pub proof fn law_a_response_is_sent_as_it_was_made(
    t: Transport,
    req: message::Asked,
    resp: message::Answered,
    src: SocketAddr,
    route: Option<IpAddr>,
    raw: Seq<char>,
    via: message::Hop,
    name: Seq<char>,
)
    requires
        message::field(resp.headers, "via"@) == Some(raw),
        !raw.contains(','),
        message::via_of(raw) == Some(via),
        message::canonical_name(name) == name,
        name != "via"@,
        name != "contact"@,
    ensures
        ({
            let r = engine::sent_response(t, req, resp, src, route);
            &&& r.code == resp.code && r.reason == resp.reason && r.body == resp.body
            &&& message::field(r.headers, name) == message::field(resp.headers, name)
            &&& message::field(r.headers, "via"@) == Some(
                message::via_text(engine::annotated(via, src)),
            )
            &&& message::field(r.headers, "contact"@) == (if message::field(
                resp.headers,
                "contact"@,
            ).is_none() && resp.code < 300 && resp.code != 100 {
                Some(engine::own_contact(t, route, req.uri.user))
            } else {
                message::field(resp.headers, "contact"@)
            })
        }),
{
    lemma_names();
    text::lemma_split_once_none(raw, ',');
    let v = message::via_text(engine::annotated(via, src));
    lemma_replaced(resp.headers, "via"@, v, name);
    lemma_replaced(resp.headers, "via"@, v, "contact"@);
    let f = message::replaced_field(resp.headers, "via"@, v);
    lemma_set(f, "contact"@, Some(engine::own_contact(t, route, req.uri.user)));
}

// ------------------------------------------------------------------ requests

/// A request of this element says from whom, to whom, under which call and with which number it is,
/// goes through seventy hops at most, and has one Via: this element, with the branch it was given.
pub proof fn law_a_request_says_whose_it_is(
    t: Transport,
    user_agent: Seq<char>,
    method: Method,
    target: uri::Address,
    from: uri::Party,
    to: uri::Party,
    call_id: Seq<char>,
    cseq: u32,
    route: Option<IpAddr>,
    with_contact: bool,
    branch: Seq<char>,
)
    ensures
        ({
            let r = engine::own_request(
                t,
                user_agent,
                method,
                target,
                from,
                to,
                call_id,
                cseq,
                route,
                with_contact,
                branch,
            );
            &&& r.method == method
            &&& r.uri == target
            &&& r.body.len() == 0
            &&& message::values_of(r.headers, "via"@) == seq![
                "SIP/2.0/UDP "@ + uri::wire_host(net::ip_text(transport::advertised(t, route)))
                    + ":"@ + text::dec(t.bound.port as nat) + ";rport;branch=z9hG4bK"@ + branch,
            ]
            &&& message::field(r.headers, "max-forwards"@) == Some("70"@)
            &&& message::field(r.headers, "from"@) == Some(uri::party_text(from))
            &&& message::field(r.headers, "to"@) == Some(uri::party_text(to))
            &&& message::field(r.headers, "call-id"@) == Some(call_id)
            &&& message::field(r.headers, "cseq"@) == Some(
                text::dec(cseq as nat) + " "@ + message::method_text(method),
            )
            &&& message::field(r.headers, "user-agent"@) == Some(user_agent)
            &&& message::field(r.headers, "content-type"@).is_none()
            &&& with_contact ==> message::field(r.headers, "contact"@) == Some(
                engine::own_contact(t, route, from.uri.user),
            )
            &&& !with_contact ==> message::field(r.headers, "contact"@).is_none()
        }),
{
    lemma_names();
    let via = engine::own_via(t, route, branch);
    let f0 = message::added_field(seq![], "via"@, via);
    assert(f0.drop_last() =~= Fields::empty());
    reveal_with_fuel(message::values_of, 2);
    assert(message::values_of(f0, "via"@) =~= seq![via]);
    assert(f0.skip(1) =~= Fields::empty());
    reveal_with_fuel(text::lookup, 2);
    lemma_set(f0, "max-forwards"@, Some("70"@));
    let f1 = message::with_field(f0, "max-forwards"@, "70"@);
    lemma_set(f1, "from"@, Some(uri::party_text(from)));
    let f2 = message::with_field(f1, "from"@, uri::party_text(from));
    lemma_set(f2, "to"@, Some(uri::party_text(to)));
    let f3 = message::with_field(f2, "to"@, uri::party_text(to));
    lemma_set(f3, "call-id"@, Some(call_id));
    let f4 = message::with_field(f3, "call-id"@, call_id);
    let n = engine::cseq_value(cseq, method);
    lemma_set(f4, "cseq"@, Some(n));
    let f5 = message::with_field(f4, "cseq"@, n);
    let contact = engine::own_contact(t, route, from.uri.user);
    lemma_set(f5, "contact"@, Some(contact));
    let f6 = if with_contact {
        message::with_field(f5, "contact"@, contact)
    } else {
        f5
    };
    lemma_set(f6, "user-agent"@, Some(user_agent));
}

// ------------------------------------------------------------------ who is handed what

/// A request that comes from where requests are taken from, that was not seen before and that shows
/// credentials where they are asked for, gets where its method belongs: calls and messages to the
/// gateway, questions about this element and registrations to their answer. What nobody handles is
/// refused with the list of what is handled.
pub proof fn law_a_request_reaches_its_handler(
    e: Element,
    req: message::Asked,
    src: SocketAddr,
    now: u64,
    unix: int,
    tag: Seq<char>,
)
    requires
        txn::admitted(text::texts(e.cfg.allow@), src.ip),
        engine::request_claim(e, req, now) is Fresh,
        e.cfg.auth.is_none(),
    ensures
        ({
            let h = engine::handling(e, req, src, now, unix, tag);
            match req.method {
                Method::Invite | Method::Ack | Method::Bye | Method::Cancel | Method::Info
                | Method::Message => h is HandOn,
                Method::Options => h matches Handling::Answer(a) && a.code == (if e.modem_ready
                    || !e.cfg.options_reflect_modem {
                    200
                } else {
                    503int
                }),
                Method::Register => h matches Handling::Answer(a) && a.code == (
                if message::party_field(req.headers, "to"@).is_some() {
                    200
                } else {
                    400int
                }),
                _ => h matches Handling::Answer(a) && a.code == 405 && message::field(
                    a.headers,
                    "allow"@,
                ) == Some("INVITE, ACK, CANCEL, BYE, OPTIONS, INFO, MESSAGE, REGISTER"@),
            }
        }),
{
    lemma_names();
    let refused = engine::response_for(e.cfg.user_agent@, req, 405, None, tag);
    lemma_set(
        refused.headers,
        "allow"@,
        Some("INVITE, ACK, CANCEL, BYE, OPTIONS, INFO, MESSAGE, REGISTER"@),
    );
}

/// Where credentials are asked for, a request other than an ACK or a CANCEL gets on exactly where it
/// shows the configured user, this element's realm and the right answer to a nonce of this element
/// that is still young and was not used before; a BYE or an INFO within a dialog needs none.
pub proof fn law_right_credentials_let_in(e: Element, req: message::Asked, c: auth::Shown, unix: int)
    requires
        e.cfg.auth.is_some(),
        message::field(req.headers, "authorization"@) matches Some(v) && auth::credentials_of(v)
            == Some(c),
        req.method == Method::Invite || req.method == Method::Message || req.method
            == Method::Register,
    ensures
        engine::access_of(e, req, unix) == Access::Granted <==> {
            &&& c.username == e.cfg.auth.unwrap().username@
            &&& c.realm == engine::domain_of(e)
            &&& engine::covers_request(c, req)
            &&& auth::verifies(
                c,
                e.cfg.auth.unwrap().password@,
                message::method_text(req.method),
                req.body,
            )
            &&& auth::nonce_valid(c.nonce, e.secret, 300, unix)
            &&& engine::is_unused(e.seen, c)
        },
{
}

/// Who needs no credentials: everyone where none are configured; a CANCEL, which stands on the INVITE it
/// ends; and a BYE or an INFO that carries this side's tag.
pub proof fn law_who_needs_no_credentials(cfg: Sip, req: message::Asked)
    ensures
        engine::needs_no_credentials(cfg, req) <==> cfg.auth.is_none() || req.method
            == Method::Cancel || (req.method == Method::Bye || req.method == Method::Info) && (
        message::party_field(req.headers, "to"@) matches Some(to) && uri::pair_value(
            to.params,
            "tag"@,
        ).is_some()),
{
}

/// Credentials are for the request they name: by its address or by that in its To header, whatever
/// parameters these carry.
pub proof fn law_credentials_name_their_request(c: auth::Shown, req: message::Asked, to: uri::Party)
    requires
        message::party_field(req.headers, "to"@) == Some(to),
    ensures
        round_trip::uri_writable(req.uri) && c.uri == uri::uri_text(req.uri)
            ==> engine::covers_request(c, req),
        round_trip::uri_writable(to.uri) && c.uri == uri::uri_text(to.uri)
            ==> engine::covers_request(c, req),
        uri::uri_of(c.uri).is_none() ==> !engine::covers_request(c, req),
        uri::uri_of(c.uri) matches Some(u) ==> (engine::covers_request(c, req) ==> (u.host
            == req.uri.host && u.user == req.uri.user && u.port == req.uri.port) || (u.host
            == to.uri.host && u.user == to.uri.user && u.port == to.uri.port)),
{
    if round_trip::uri_writable(req.uri) {
        round_trip::law_a_uri_reads_back(req.uri);
    }
    if round_trip::uri_writable(to.uri) {
        round_trip::law_a_uri_reads_back(to.uri);
    }
}

/// A request that is asked for credentials is sent again with them: the same request under the next
/// number, in a transaction of its own, with the answer to the challenge in the header that the kind of
/// challenge calls for.
pub proof fn law_a_challenged_request_is_sent_again(
    req: message::Asked,
    resp: message::Answered,
    user: Seq<char>,
    password: Seq<char>,
    cseq: u32,
    cnonce: Seq<char>,
    branch: Seq<char>,
    posed: auth::Posed,
    via: message::Hop,
    raw: Seq<char>,
)
    requires
        engine::posed(resp) == Some(posed),
        message::field(req.headers, "via"@) == Some(raw),
        message::via_of(raw) == Some(via),
        resp.code == 401 || resp.code == 407,
    ensures
        ({
            let again = engine::authorised_request(
                req,
                resp,
                user,
                password,
                cseq,
                cnonce,
                branch,
            );
            let answer = auth::header_text(
                auth::answered(
                    posed,
                    user,
                    password,
                    message::method_text(req.method),
                    uri::uri_text(req.uri),
                    req.body,
                    1,
                    cnonce,
                ),
            );
            &&& again.method == req.method && again.uri == req.uri && again.body == req.body
            &&& message::field(again.headers, "from"@) == message::field(req.headers, "from"@)
            &&& message::field(again.headers, "to"@) == message::field(req.headers, "to"@)
            &&& message::field(again.headers, "call-id"@) == message::field(
                req.headers,
                "call-id"@,
            )
            &&& message::field(again.headers, "cseq"@) == Some(
                text::dec(cseq as nat) + " "@ + message::method_text(req.method),
            )
            &&& message::field(again.headers, "via"@) == Some(
                message::via_text(
                    message::Hop {
                        params: uri::without_param(via.params, "branch"@).push(
                            ("branch"@, Some("z9hG4bK"@ + branch)),
                        ),
                        ..via
                    },
                ),
            )
            &&& resp.code == 401 ==> message::field(again.headers, "authorization"@) == Some(answer)
            &&& resp.code == 407 ==> message::field(again.headers, "proxy-authorization"@) == Some(
                answer,
            )
        }),
{
    lemma_names();
    lemma_credential_names();
    let n = engine::cseq_value(cseq, req.method);
    lemma_set(req.headers, "cseq"@, Some(n));
    let f = message::with_field(req.headers, "cseq"@, n);
    let v = message::via_text(
        message::Hop {
            params: uri::without_param(via.params, "branch"@).push(
                ("branch"@, Some("z9hG4bK"@ + branch)),
            ),
            ..via
        },
    );
    lemma_set(f, "via"@, Some(v));
    let f = message::with_field(f, "via"@, v);
    let creds = auth::answered(
        posed,
        user,
        password,
        message::method_text(req.method),
        uri::uri_text(req.uri),
        req.body,
        1,
        cnonce,
    );
    if resp.code == 401 {
        lemma_set(f, "authorization"@, Some(auth::header_text(creds)));
    } else {
        lemma_set(f, "proxy-authorization"@, Some(auth::header_text(creds)));
    }
}

pub proof fn lemma_credential_names()
    ensures
        message::canonical_name("authorization"@) == "authorization"@,
        message::canonical_name("proxy-authorization"@) == "proxy-authorization"@,
        "authorization"@.len() == 13,
        "proxy-authorization"@.len() == 19,
{
    reveal_strlit("authorization");
    reveal_strlit("proxy-authorization");
    assert(text::lower("authorization"@) =~= "authorization"@);
    assert(text::lower("proxy-authorization"@) =~= "proxy-authorization"@);
    message::lemma_plain_name("authorization"@);
    message::lemma_plain_name("proxy-authorization"@);
}

/// A response is delivered to the request it answers: the one whose branch and method it carries.
pub proof fn law_a_response_is_delivered(
    clients: Map<Seq<char>, Method>,
    resp: message::Answered,
    branch: Seq<char>,
    n: u32,
    method: Method,
)
    requires
        txn::top_branch(resp.headers) == Some(branch),
        txn::sequence_of(resp.headers) == Some((n, method)),
        clients.contains_key(branch),
    ensures
        clients[branch] == method ==> engine::delivery(clients, resp) == Some(
            (branch, resp.code >= 200 || method == Method::Invite),
        ),
        clients[branch] != method ==> engine::delivery(clients, resp).is_none(),
        engine::delivery(clients.remove(branch), resp).is_none(),
{
}

// ------------------------------------------------------------------ registrations

/// The address of record that is asked about has the bindings that are its own, all of them in their
/// order, and removing it removes these and no others.
pub proof fn law_bindings_belong_to_their_address(b: Seq<registrar::Bound>, aor: Seq<char>)
    ensures
        registrar::of_aor(b, aor) == b.filter(|x: registrar::Bound| x.aor == aor),
        registrar::without_aor(b, aor) == b.filter(|x: registrar::Bound| x.aor != aor),
    decreases b.len(),
{
    reveal(Seq::filter);
    if b.len() > 0 {
        law_bindings_belong_to_their_address(b.drop_last(), aor);
    }
}

/// A lifetime that is asked for is granted up to an hour; without one that can be read, the one that
/// holds otherwise is.
pub proof fn law_a_lifetime_is_granted_up_to_an_hour(n: u32, otherwise: u32)
    ensures
        engine::lifetime_of(Some(text::dec(n as nat)), otherwise) == if n < 3600 {
            n
        } else {
            3600u32
        },
        engine::lifetime_of(None, otherwise) == if otherwise < 3600 {
            otherwise
        } else {
            3600u32
        },
{
    text::law_decimal_round_trip(n as nat, 0xffff_ffff);
    text::lemma_dec_reads_back(n as nat);
    let d = text::dec(n as nat);
    assert(text::is_digit(d[0]) && text::is_digit(d[d.len() - 1]));
    text::lemma_trimmed(d);
}

proof fn lemma_no_comma(s: Seq<char>, read: Seq<char>, angle: bool, quote: bool)
    requires
        !s.contains(','),
    ensures
        engine::contacts_from(s, read, angle, quote) == engine::entry(read + s),
    decreases s.len(),
{
    if s.len() > 0 {
        let r = s.skip(1);
        assert forall|i: int| 0 <= i < r.len() implies r[i] != ',' by {
            assert(s[i + 1] != ',');
        }
        assert(s[0] != ',');
        assert(read.push(s[0]) + r =~= read + s);
        lemma_no_comma(
            r,
            read.push(s[0]),
            if s[0] == '<' && !quote {
                true
            } else if s[0] == '>' && !quote {
                false
            } else {
                angle
            },
            if s[0] == '"' && !angle {
                !quote
            } else {
                quote
            },
        );
    } else {
        assert(read + s =~= read);
    }
}

/// A Contact header that holds no comma holds one contact.
pub proof fn law_a_contact_stands_alone(v: Seq<char>)
    requires
        !v.contains(','),
        text::trim(v).len() > 0,
    ensures
        engine::contact_list(v) == seq![text::trim(v)],
{
    lemma_no_comma(v, seq![], false, false);
    assert(Seq::<char>::empty() + v =~= v);
}

/// Registering a contact binds the address to it until its lifetime is over, from where the request
/// came, and leaves every other binding that has not lapsed; a lifetime of nothing unbinds it, and a
/// star unbinds all that the address had.
pub proof fn law_a_contact_is_bound(
    b: Seq<registrar::Bound>,
    aor: Seq<char>,
    req: message::Asked,
    v: Seq<char>,
    contact: uri::Party,
    src: SocketAddr,
    now: u64,
    x: registrar::Bound,
)
    requires
        registrar::one_per_contact(b),
        message::values_of(req.headers, "contact"@) == seq![v],
        now + 3600 * 1000 <= u64::MAX,
    ensures
        text::trim(v) == "*"@ ==> (engine::after_register(b, aor, req, src, now).contains(x)
            <==> b.contains(x) && x.aor != aor && x.expires_at > now),
        !v.contains(',') && text::trim(v) != "*"@ && uri::party_of(text::trim(v)) == Some(contact)
            ==> ({
            let lifetime = engine::lifetime_of(
                uri::pair_value(contact.params, "expires"@),
                engine::lifetime_of(message::field(req.headers, "expires"@), 3600),
            );
            let after = engine::after_register(b, aor, req, src, now);
            &&& lifetime > 0 ==> after.contains(
                registrar::Bound {
                    aor,
                    contact,
                    source: src,
                    expires_at: (now + lifetime * 1000) as u64,
                    registered_at: now,
                },
            )
            &&& b.contains(x) && x.expires_at > now && !(x.aor == aor && registrar::contact_key(
                x.contact,
            ) == registrar::contact_key(contact)) ==> after.contains(x)
            &&& lifetime == 0 && x.aor == aor && registrar::contact_key(x.contact)
                == registrar::contact_key(contact) ==> !after.contains(x)
        }),
{
    lemma_names();
    let values = seq![v];
    if text::trim(v) == "*"@ {
        assert(text::trim(values[0]) == "*"@);
        assert(engine::is_star(values));
        let w = registrar::without_aor(b, aor);
        law_bindings_belong_to_their_address(b, aor);
        let p = |y: registrar::Bound| y.aor != aor;
        lemma_filtered(b, p, x);
        registrar::law_lapsed_bindings_are_gone(w, now);
    } else if !v.contains(',') && uri::party_of(text::trim(v)) == Some(contact) {
        assert(!engine::is_star(values));
        assert(text::trim(v).len() > 0) by {
            if text::trim(v).len() == 0 {
                text::lemma_trimmed(text::trim(v));
                assert(text::trim(text::trim(v)) == text::trim(v));
                assert(text::find(text::trim(v), '<') == 0);
            }
        }
        law_a_contact_stands_alone(v);
        assert(values.drop_last() =~= seq![]);
        assert(engine::all_contacts(seq![]) =~= seq![]);
        assert(engine::all_contacts(values) =~= seq![text::trim(v)]);
        let entries = seq![text::trim(v)];
        assert(entries.drop_last() =~= seq![]);
        let asked = engine::default_lifetime(req.headers);
        assert(engine::register_each(b, aor, seq![], src, asked, now) == b);
        let lifetime = engine::lifetime_of(uri::pair_value(contact.params, "expires"@), asked);
        let u = registrar::updated(b, aor, contact, src, lifetime, now);
        assert(engine::register_each(b, aor, entries, src, asked, now) == u);
        registrar::law_registration(b, aor, contact, src, lifetime, now);
        registrar::law_lapsed_bindings_are_gone(u, now);
    }
}

proof fn lemma_filtered(b: Seq<registrar::Bound>, p: spec_fn(registrar::Bound) -> bool, x: registrar::Bound)
    ensures
        b.filter(p).contains(x) <==> b.contains(x) && p(x),
    decreases b.len(),
{
    reveal(Seq::filter);
    if b.len() > 0 {
        let d = b.drop_last();
        lemma_filtered(d, p, x);
        let f = d.filter(p);
        if b.contains(x) {
            let i = choose|i: int| 0 <= i < b.len() && b[i] == x;
            if i < d.len() {
                assert(d[i] == x);
            }
        }
        if d.contains(x) {
            let i = choose|i: int| 0 <= i < d.len() && d[i] == x;
            assert(b[i] == x);
        }
        assert(b[b.len() - 1] == b.last());
        if p(b.last()) {
            let g = f.push(b.last());
            assert(g[f.len() as int] == b.last());
            if f.contains(x) {
                let i = choose|i: int| 0 <= i < f.len() && f[i] == x;
                assert(g[i] == x);
            }
            if g.contains(x) {
                let i = choose|i: int| 0 <= i < g.len() && g[i] == x;
                if i < f.len() {
                    assert(f[i] == x);
                }
            }
        }
    }
}

/// A registration upstream says who is registered, where they are reached, and for how long.
pub proof fn law_a_registration_says_who_is_where(
    e: Element,
    up: Upstream,
    server: uri::Address,
    call_id: Seq<char>,
    tag: Seq<char>,
    expires: u32,
    route: Option<IpAddr>,
    branch: Seq<char>,
)
    ensures
        ({
            let r = register::register_request(
                e,
                up,
                server,
                call_id,
                tag,
                expires,
                route,
                branch,
            );
            let user = match up.from_user {
                Some(u) => u@,
                None => up.username@,
            };
            let reached = match up.contact_user {
                Some(u) => u@,
                None => user,
            };
            let aor = uri::Party {
                display: None,
                uri: uri::Address {
                    scheme: "sip"@,
                    user: Some(user),
                    password: None,
                    host: server.host,
                    port: server.port,
                    params: seq![],
                    headers: seq![],
                },
                params: seq![],
            };
            &&& r.method == Method::Register
            &&& r.uri.user.is_none() && r.uri.host == server.host && r.uri.port == server.port
            &&& message::field(r.headers, "to"@) == Some(uri::party_text(aor))
            &&& message::field(r.headers, "from"@) == Some(
                uri::party_text(uri::party_with(aor, "tag"@, tag)),
            )
            &&& message::field(r.headers, "call-id"@) == Some(call_id)
            &&& message::field(r.headers, "cseq"@) == Some(
                text::dec(e.cseq as nat) + " "@ + "REGISTER"@,
            )
            &&& message::field(r.headers, "contact"@) == Some(
                engine::own_contact(e.transport, route, Some(reached)),
            )
            &&& message::field(r.headers, "expires"@) == Some(text::dec(expires as nat))
        }),
{
    let aor = uri::Party {
        display: None,
        uri: register::plain_address(Some(register::aor_user(up)), server.host, server.port),
        params: seq![],
    };
    let from = uri::party_with(aor, "tag"@, tag);
    let target = register::plain_address(None, server.host, server.port);
    law_a_request_says_whose_it_is(
        e.transport,
        e.cfg.user_agent@,
        Method::Register,
        target,
        from,
        aor,
        call_id,
        e.cseq,
        route,
        false,
        branch,
    );
    lemma_names();
    let base = engine::own_request(
        e.transport,
        e.cfg.user_agent@,
        Method::Register,
        target,
        from,
        aor,
        call_id,
        e.cseq,
        route,
        false,
        branch,
    );
    let contact = engine::own_contact(e.transport, route, Some(register::contact_user(up)));
    lemma_set(base.headers, "contact"@, Some(contact));
    let f = message::with_field(base.headers, "contact"@, contact);
    lemma_set(f, "expires"@, Some(text::dec(expires as nat)));
    let f = message::with_field(f, "expires"@, text::dec(expires as nat));
    lemma_set(f, "allow"@, Some("INVITE, ACK, CANCEL, BYE, OPTIONS, INFO, MESSAGE"@));
}

/// A registration is refreshed after four fifths of its lifetime, an hour later at the latest, and one
/// of a few seconds before it lapses.
pub proof fn law_a_registration_is_refreshed_in_time(granted: u32)
    ensures
        7 <= granted <= 4500 ==> register::refresh_time(granted) == granted as int * 4 / 5,
        granted > 4500 ==> register::refresh_time(granted) == 3600,
        granted == 6 ==> register::refresh_time(granted) == 5,
        2 <= granted < 6 ==> register::refresh_time(granted) == granted - 1,
{
}

/// What a registrar grants is what it says of this side's own contact; else what it says of all; else
/// what was asked for.
pub proof fn law_the_registrar_says_how_long(
    resp: message::Answered,
    own: uri::Address,
    asked: u32,
    mine: uri::Party,
    n: u32,
    m: u32,
)
    requires
        register::find_own(message::values_of(resp.headers, "contact"@), own) == Some(mine),
    ensures
        uri::pair_value(mine.params, "expires"@) == Some(text::dec(n as nat))
            ==> register::granted_by(resp, own, asked) == n,
        uri::pair_value(mine.params, "expires"@).is_none() && message::field(
            resp.headers,
            "expires"@,
        ) == Some(text::dec(m as nat)) ==> register::granted_by(resp, own, asked) == m,
        uri::pair_value(mine.params, "expires"@).is_none() && message::field(
            resp.headers,
            "expires"@,
        ).is_none() ==> register::granted_by(resp, own, asked) == asked,
{
    lemma_names();
    lemma_plain_number(n);
    lemma_plain_number(m);
}

proof fn lemma_plain_number(n: u32)
    ensures
        text::number(text::trim(text::dec(n as nat)), 0xffff_ffff) == Some(n as nat),
{
    text::law_decimal_round_trip(n as nat, 0xffff_ffff);
    text::lemma_dec_reads_back(n as nat);
    let d = text::dec(n as nat);
    assert(text::is_digit(d[0]) && text::is_digit(d[d.len() - 1]));
    text::lemma_trimmed(d);
}

/// What the bindings say of themselves in a response: each contact with the seconds it has left.
pub open spec fn told(b: Seq<registrar::Bound>, now: u64) -> Seq<Seq<char>> {
    b.map_values(
        |x: registrar::Bound|
            uri::party_text(
                uri::party_with(
                    x.contact,
                    "expires"@,
                    text::dec(
                        if x.expires_at > now {
                            ((x.expires_at - now) / 1000) as nat
                        } else {
                            0
                        },
                    ),
                ),
            ),
    )
}

proof fn lemma_told(f: Fields, b: Seq<registrar::Bound>, now: u64)
    requires
        message::values_of(f, "contact"@).len() == 0,
        message::canonical_name("contact"@) == "contact"@,
    ensures
        message::values_of(engine::with_bindings(f, b, now), "contact"@) == told(b, now),
    decreases b.len(),
{
    if b.len() > 0 {
        lemma_told(f, b.drop_last(), now);
        let w = engine::with_bindings(f, b.drop_last(), now);
        let x = ("contact"@, engine::binding_value(b.last(), now));
        assert(w.push(x).drop_last() =~= w);
        assert(told(b, now) =~= told(b.drop_last(), now).push(x.1));
    } else {
        assert(message::values_of(f, "contact"@) =~= told(b, now));
    }
}

/// A registration is answered with every contact that its address of record is reached at from now on,
/// each with the seconds it has left, and those contacts are what is remembered.
pub proof fn law_a_registration_is_answered_with_its_contacts(
    e: Element,
    req: message::Asked,
    src: SocketAddr,
    now: u64,
    unix: int,
    tag: Seq<char>,
    to: uri::Party,
)
    requires
        txn::admitted(text::texts(e.cfg.allow@), src.ip),
        engine::request_claim(e, req, now) is Fresh,
        e.cfg.auth.is_none(),
        req.method == Method::Register,
        message::party_field(req.headers, "to"@) == Some(to),
    ensures
        ({
            let aor = uri::uri_text(
                uri::Address { password: None, params: seq![], headers: seq![], ..to.uri },
            );
            let after = engine::after_register(e.bindings, aor, req, src, now);
            &&& engine::handling(e, req, src, now, unix, tag) matches Handling::Answer(a)
            &&& a.code == 200
            &&& message::values_of(a.headers, "contact"@) == told(
                after.filter(|x: registrar::Bound| x.aor == aor),
                now,
            )
            &&& engine::handled(e, req, src, now, unix).bindings == after
        }),
{
    lemma_names();
    let aor = uri::uri_text(uri::bare_address(to.uri));
    let after = engine::after_register(e.bindings, aor, req, src, now);
    let base = engine::response_for(e.cfg.user_agent@, req, 200, None, tag);
    law_a_response_says_whose_it_is(e.cfg.user_agent@, req, 200, None, tag);
    law_the_first_value_is_found(base.headers, "contact"@);
    law_bindings_belong_to_their_address(after, aor);
    let own = registrar::of_aor(after, aor);
    lemma_told(base.headers, own, now);
    lemma_values_with(
        engine::with_bindings(base.headers, own, now),
        "expires"@,
        text::dec(engine::default_lifetime(req.headers) as nat),
        "contact"@,
    );
}

// ------------------------------------------------------------------ where a configured target is

/// A target that is an address is reached at it, one that is a name has to be looked up, and both at
/// their port, which is 5060 where none is named.
pub proof fn law_a_target_is_reached_at_its_port(r: Route, u: uri::Address, ip: IpAddr)
    requires
        engine::is_route_to(r, u),
        u.host.len() > 0,
        u.host[0] != '[' && u.host[0] != ']',
        u.host.last() != '[' && u.host.last() != ']',
    ensures
        ({
            let port = match u.port {
                Some(p) => p,
                None => 5060u16,
            };
            &&& u.host == net::ip_text(ip) ==> r == Route::Address(SocketAddr { ip, port, scope: 0 })
            &&& net::ip_of(u.host).is_none() ==> (r matches Route::Lookup { host, port: p }
                && host@ == u.host && p == port)
        }),
{
    net::law_an_address_reads_back(ip);
}

/// Square brackets around a target's address are not part of it.
pub proof fn law_brackets_are_not_part_of_a_host(host: Seq<char>)
    requires
        host.len() > 0,
        host[0] != '[' && host[0] != ']',
        host.last() != '[' && host.last() != ']',
    ensures
        transport::unbracketed_end(transport::unbracketed_start(seq!['['] + host + seq![']'])) == host,
        transport::unbracketed_end(transport::unbracketed_start(host)) == host,
{
    let h = seq!['['] + host + seq![']'];
    assert(h.skip(1) =~= host + seq![']']);
    assert((host + seq![']']).drop_last() =~= host);
    assert((host + seq![']'])[0] == host[0]);
    assert(transport::unbracketed_start(h) == transport::unbracketed_start(h.skip(1)));
    assert(transport::unbracketed_start(host + seq![']']) == host + seq![']']);
    assert((host + seq![']']).last() == ']');
    assert(transport::unbracketed_end(host + seq![']']) == transport::unbracketed_end(host));
}

/// The wait after a failed registration doubles, and is never more than five minutes.
pub proof fn law_waits_double_up_to_five_minutes(wait: u64)
    ensures
        wait <= 150 ==> register::longer(wait) == 2 * wait,
        wait >= 150 ==> register::longer(wait) == 300,
{
}

} // verus!
