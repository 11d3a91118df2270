//! What the gateway says on the SIP side of a call and of a message.
use vstd::prelude::*;
use vstd::utf8::encode_utf8;

use crate::config::{Config, Upstream};
use crate::net::{IpAddr, SocketAddr};
use crate::sip::auth;
use crate::sip::description;
use crate::sip::engine;
use crate::sip::engine::Element;
use crate::sip::message;
use crate::sip::message::Method;
use crate::sip::round_trip;
use crate::sip::sdp;
use crate::sip::sdp::{Codec, Direction};
use crate::sip::service;
use crate::sip::uri;
use crate::text;
use super::call;
use super::call::{Call, Role};
use super::device;
use super::messaging;
use super::messaging::Messaged;
use super::modem_side;
use super::number;
use super::sip_side;
use super::Gate;

verus! {

// ------------------------------------------------------------------ calls that are offered

/// A caller from the mobile network is shown by their number, in front of the domain of this element;
/// one who does not show it is anonymous.
pub proof fn law_a_caller_is_shown(e: Element, caller: Seq<char>, tag: Seq<char>)
    ensures
        ({
            let p = modem_side::caller_party(e, caller, tag);
            &&& p.display == Some(caller)
            &&& caller.len() > 0 ==> p.uri.user == Some(caller)
            &&& caller.len() == 0 ==> p.uri.user == Some("anonymous"@)
            &&& p.uri.scheme == "sip"@
            &&& p.uri.host == engine::domain_of(e)
            &&& p.uri.port.is_none() && p.uri.password.is_none()
            &&& uri::pair_value(p.params, "tag"@) == Some(tag)
        }),
{
    let bare = uri::Party {
        display: Some(caller),
        uri: modem_side::plain_address(
            if caller.len() == 0 {
                "anonymous"@
            } else {
                caller
            },
            engine::domain_of(e),
        ),
        params: seq![],
    };
    round_trip::law_a_set_party_parameter_is_found(bare, "tag"@, tag, "tag"@);
}

proof fn lemma_offer_reads_back(address: IpAddr, port: u16, events: u8, ptime: u32, now: u64)
    ensures
        sdp::session_of(
            text::lossy(
                encode_utf8(
                    sdp::session_text(sdp::offered(address, port, Some(events), ptime, now)),
                ),
            ),
        ) matches Some(s) && {
            &&& s.payload_types == seq![0u8, 8u8, events]
            &&& s.telephone_event == Some(events)
            &&& s.port == port
            &&& s.address == address
            &&& s.ptime == Some(ptime)
            &&& s.sendrecv == Direction::SendRecv
        },
{
    let s = sdp::offered(address, port, Some(events), ptime, now);
    text::law_utf8_reads_back(sdp::session_text(s));
    reveal_strlit("modem2sip");
    description::law_a_description_reads_back(s);
    assert(sdp::all_types(s) =~= seq![0u8, 8u8, events]);
}

/// A call from the mobile network is offered to its target as an INVITE from the caller's number.
pub proof fn law_an_offer_says_who_calls(
    e: Element,
    cfg: Config,
    caller: Seq<char>,
    target: uri::Address,
    route: Option<IpAddr>,
    port: u16,
    tag: Seq<char>,
    random: Seq<char>,
    branch: Seq<char>,
    now: u64,
)
    ensures
        ({
            let req = modem_side::offering(
                e,
                cfg,
                caller,
                target,
                route,
                port,
                tag,
                random,
                branch,
                now,
            );
            &&& req.method == Method::Invite
            &&& req.uri == target
            &&& message::field(req.headers, "from"@) == Some(
                uri::party_text(modem_side::caller_party(e, caller, tag)),
            )
            &&& message::field(req.headers, "to"@) == Some(
                uri::party_text(
                    uri::Party { display: None, uri: uri::bare_address(target), params: seq![] },
                ),
            )
            &&& message::field(req.headers, "call-id"@) == Some(random + "@modem2sip"@)
            &&& message::field(req.headers, "cseq"@) == Some(
                text::dec(e.cseq as nat) + " "@ + "INVITE"@,
            )
            &&& message::field(req.headers, "content-type"@) == Some("application/sdp"@)
            &&& message::field(req.headers, "contact"@).is_some()
        }),
{
    let base = engine::own_request(
        e.transport,
        e.cfg.user_agent@,
        Method::Invite,
        target,
        modem_side::caller_party(e, caller, tag),
        uri::Party { display: None, uri: uri::bare_address(target), params: seq![] },
        modem_side::own_call_id(random),
        e.cseq,
        route,
        true,
        branch,
    );
    service::law_a_request_says_whose_it_is(
        e.transport,
        e.cfg.user_agent@,
        Method::Invite,
        target,
        modem_side::caller_party(e, caller, tag),
        uri::Party { display: None, uri: uri::bare_address(target), params: seq![] },
        modem_side::own_call_id(random),
        e.cseq,
        route,
        true,
        branch,
    );
    service::lemma_names();
    service::lemma_set(base.headers, "content-type"@, Some("application/sdp"@));
    let f = message::with_field(base.headers, "content-type"@, "application/sdp"@);
    service::lemma_set(f, "allow"@, Some(call::ALLOWED@));
}

/// The description in an offer is one that whoever reads it finds PCMU, PCMA and telephone events in,
/// at the address and the port where this side listens.
pub proof fn law_an_offer_can_be_taken_up(
    e: Element,
    cfg: Config,
    caller: Seq<char>,
    target: uri::Address,
    route: Option<IpAddr>,
    port: u16,
    tag: Seq<char>,
    random: Seq<char>,
    branch: Seq<char>,
    now: u64,
)
    ensures
        ({
            let req = modem_side::offering(
                e,
                cfg,
                caller,
                target,
                route,
                port,
                tag,
                random,
                branch,
                now,
            );
            sdp::session_of(text::lossy(req.body)) matches Some(s) && {
                &&& s.payload_types == seq![0u8, 8u8, cfg.rtp.dtmf_payload_type]
                &&& s.telephone_event == Some(cfg.rtp.dtmf_payload_type)
                &&& s.port == port
                &&& s.address == device::rtp_advertised(cfg.rtp, e.transport, route)
                &&& s.ptime == Some(cfg.audio.period_ms)
                &&& s.sendrecv == Direction::SendRecv
            }
        }),
{
    lemma_offer_reads_back(
        device::rtp_advertised(cfg.rtp, e.transport, route),
        port,
        cfg.rtp.dtmf_payload_type,
        cfg.audio.period_ms,
        now,
    );
}

/// A call that was offered is known by what its INVITE said, and by the object of the modem's call.
pub proof fn law_an_offered_call_is_the_one_that_came_in(
    e: Element,
    caller: Seq<char>,
    path: Seq<char>,
    target: uri::Address,
    dest: SocketAddr,
    port: u16,
    tag: Seq<char>,
    random: Seq<char>,
    invite: message::Asked,
)
    ensures
        ({
            let c = modem_side::offered_call(
                e,
                caller,
                path,
                target,
                dest,
                port,
                tag,
                random,
                invite,
            );
            &&& c.role == Role::ToSip
            &&& c.mm_path == Some(path)
            &&& c.peer_number == caller
            &&& c.call_id == random + "@modem2sip"@
            &&& c.remote_target == target
            &&& c.local_cseq == e.cseq
            &&& c.invite == invite
            &&& call::invite_dest(c) == dest
            &&& c.local_rtp_port == port
            &&& uri::pair_value(c.local.params, "tag"@) == Some(tag)
            &&& uri::pair_value(c.remote.params, "tag"@).is_none()
            &&& !c.answered && !c.media && c.remote_sdp.is_none()
        }),
{
    law_a_caller_is_shown(e, caller, tag);
}

// ------------------------------------------------------------------ answers

proof fn lemma_answer_reads_back(
    offer: sdp::Session,
    address: IpAddr,
    port: u16,
    codec: Codec,
    dtmf_pt: Option<u8>,
    ptime: u32,
    now: u64,
)
    ensures
        ({
            let a = sdp::answered(offer, address, port, codec, dtmf_pt, ptime, now);
            sdp::session_of(text::lossy(encode_utf8(sdp::session_text(a)))) matches Some(s) && {
                &&& s.payload_types.len() >= 1
                &&& s.payload_types[0] == if codec == Codec::Pcmu {
                    0u8
                } else {
                    8u8
                }
                &&& s.telephone_event == (if dtmf_pt.is_some() {
                    offer.telephone_event
                } else {
                    None
                })
                &&& match s.telephone_event {
                    Some(te) => s.payload_types.len() == 2 && s.payload_types[1] == te,
                    None => s.payload_types.len() == 1,
                }
                &&& s.port == port
                &&& s.address == address
                &&& s.ptime == Some(ptime)
                &&& offer.sendrecv == Direction::SendRecv ==> s.sendrecv == Direction::SendRecv
                &&& offer.sendrecv == Direction::SendOnly ==> s.sendrecv == Direction::RecvOnly
                &&& offer.sendrecv == Direction::RecvOnly ==> s.sendrecv == Direction::SendOnly
                &&& offer.sendrecv == Direction::Inactive ==> s.sendrecv == Direction::Inactive
            }
        }),
{
    let a = sdp::answered(offer, address, port, codec, dtmf_pt, ptime, now);
    text::law_utf8_reads_back(sdp::session_text(a));
    reveal_strlit("modem2sip");
    description::law_a_description_reads_back(a);
}

/// The answer to an INVITE, early or final, takes up what was offered: whoever reads it finds the one
/// codec of the call, telephone events where they were offered, the address and the port where this
/// side listens, and the other side of the direction. It is an answer to that INVITE, with this side's
/// tag.
pub proof fn law_an_answer_takes_up_the_offer(
    e: Element,
    cfg: Config,
    c: Call,
    offer: sdp::Session,
    code: u16,
    route: Option<IpAddr>,
    tag: Seq<char>,
    now: u64,
)
    requires
        c.remote_sdp == Some(offer),
    ensures
        ({
            let resp = call::media_response(e, cfg, c, code, route, tag, now);
            &&& resp.code == code
            &&& message::field(resp.headers, "to"@) == Some(uri::party_text(c.local))
            &&& message::field(resp.headers, "from"@) == message::field(c.invite.headers, "from"@)
            &&& message::field(resp.headers, "call-id"@) == message::field(
                c.invite.headers,
                "call-id"@,
            )
            &&& message::field(resp.headers, "cseq"@) == message::field(c.invite.headers, "cseq"@)
            &&& message::values_of(resp.headers, "via"@) == message::values_of(
                c.invite.headers,
                "via"@,
            )
            &&& message::field(resp.headers, "content-type"@) == Some("application/sdp"@)
            &&& sdp::session_of(text::lossy(resp.body)) matches Some(s) && {
                &&& s.payload_types[0] == if c.codec == Codec::Pcmu {
                    0u8
                } else {
                    8u8
                }
                &&& s.payload_types.len() == if offer.telephone_event.is_some() {
                    2int
                } else {
                    1
                }
                &&& s.telephone_event == offer.telephone_event
                &&& s.port == c.local_rtp_port
                &&& s.address == device::rtp_advertised(cfg.rtp, e.transport, route)
                &&& offer.sendrecv == Direction::SendRecv ==> s.sendrecv == Direction::SendRecv
                &&& offer.sendrecv == Direction::SendOnly ==> s.sendrecv == Direction::RecvOnly
                &&& offer.sendrecv == Direction::RecvOnly ==> s.sendrecv == Direction::SendOnly
                &&& offer.sendrecv == Direction::Inactive ==> s.sendrecv == Direction::Inactive
            }
        }),
{
    service::law_a_response_says_whose_it_is(e.cfg.user_agent@, c.invite, code, None, tag);
    service::lemma_names();
    let base = engine::response_for(e.cfg.user_agent@, c.invite, code, None, tag);
    service::lemma_set(base.headers, "content-type"@, Some("application/sdp"@));
    let f = message::with_field(base.headers, "content-type"@, "application/sdp"@);
    service::lemma_set(f, "to"@, Some(uri::party_text(c.local)));
    let f = message::with_field(f, "to"@, uri::party_text(c.local));
    service::lemma_set(f, "allow"@, Some(call::ALLOWED@));
    lemma_answer_reads_back(
        offer,
        device::rtp_advertised(cfg.rtp, e.transport, route),
        c.local_rtp_port,
        c.codec,
        Some(cfg.rtp.dtmf_payload_type),
        cfg.audio.period_ms,
        now,
    );
}

/// A response to the INVITE of a call without media answers that INVITE too, with this side's tag.
pub proof fn law_a_response_belongs_to_its_invite(e: Element, c: Call, code: u16, tag: Seq<char>)
    ensures
        ({
            let resp = call::invite_response(e, c, code, tag);
            &&& resp.code == code
            &&& resp.body.len() == 0
            &&& message::field(resp.headers, "to"@) == Some(uri::party_text(c.local))
            &&& message::field(resp.headers, "from"@) == message::field(c.invite.headers, "from"@)
            &&& message::field(resp.headers, "call-id"@) == message::field(
                c.invite.headers,
                "call-id"@,
            )
            &&& message::field(resp.headers, "cseq"@) == message::field(c.invite.headers, "cseq"@)
            &&& message::values_of(resp.headers, "via"@) == message::values_of(
                c.invite.headers,
                "via"@,
            )
        }),
{
    service::law_a_response_says_whose_it_is(e.cfg.user_agent@, c.invite, code, None, tag);
    service::lemma_names();
    let base = engine::response_for(e.cfg.user_agent@, c.invite, code, None, tag);
    service::lemma_set(base.headers, "to"@, Some(uri::party_text(c.local)));
}

/// A renegotiation is answered with what is offered, or with what held before where nothing is, in the
/// codec of the call and at the port it has.
pub proof fn law_a_renegotiation_keeps_the_call(
    e: Element,
    cfg: Config,
    c: Call,
    req: message::Asked,
    base_of: sdp::Session,
    route: Option<IpAddr>,
    tag: Seq<char>,
    now: u64,
)
    requires
        sip_side::media_base(c, req) == Some(base_of),
    ensures
        ({
            let resp = sip_side::reinvite_answer(e, cfg, c, req, route, tag, now);
            &&& resp.code == 200
            &&& message::field(resp.headers, "to"@) == Some(uri::party_text(c.local))
            &&& message::field(resp.headers, "cseq"@) == message::field(req.headers, "cseq"@)
            &&& message::field(resp.headers, "call-id"@) == message::field(req.headers, "call-id"@)
            &&& sdp::session_of(text::lossy(resp.body)) matches Some(s) && {
                &&& s.payload_types[0] == if c.codec == Codec::Pcmu {
                    0u8
                } else {
                    8u8
                }
                &&& s.telephone_event == (if c.media_dtmf_pt.is_some() && base_of.telephone_event
                    == c.media_dtmf_pt {
                    c.media_dtmf_pt
                } else {
                    None
                })
                &&& s.port == c.local_rtp_port
                &&& s.address == device::rtp_advertised(cfg.rtp, e.transport, route)
                &&& base_of.sendrecv == Direction::SendRecv ==> s.sendrecv == Direction::SendRecv
                &&& base_of.sendrecv == Direction::SendOnly ==> s.sendrecv == Direction::RecvOnly
                &&& base_of.sendrecv == Direction::RecvOnly ==> s.sendrecv == Direction::SendOnly
                &&& base_of.sendrecv == Direction::Inactive ==> s.sendrecv == Direction::Inactive
            }
        }),
{
    service::law_a_response_says_whose_it_is(e.cfg.user_agent@, req, 200, None, tag);
    service::lemma_names();
    let base = engine::response_for(e.cfg.user_agent@, req, 200, None, tag);
    service::lemma_set(base.headers, "to"@, Some(uri::party_text(c.local)));
    let f = message::with_field(base.headers, "to"@, uri::party_text(c.local));
    service::lemma_set(f, "content-type"@, Some("application/sdp"@));
    lemma_answer_reads_back(
        base_of,
        device::rtp_advertised(cfg.rtp, e.transport, route),
        c.local_rtp_port,
        c.codec,
        sip_side::kept_dtmf(c, base_of),
        cfg.audio.period_ms,
        now,
    );
}

/// An answer is acknowledged within its dialog and under the number of its INVITE.
pub proof fn law_an_answer_is_acknowledged(
    e: Element,
    c: Call,
    route: Option<IpAddr>,
    branch: Seq<char>,
)
    ensures
        ({
            let ack = call::acknowledgement(e, c, route, branch);
            &&& ack.method == Method::Ack
            &&& ack.uri == c.remote_target
            &&& ack.body.len() == 0
            &&& message::field(ack.headers, "cseq"@) == Some(
                text::dec(c.local_cseq as nat) + " "@ + "ACK"@,
            )
            &&& message::field(ack.headers, "call-id"@) == Some(c.call_id)
            &&& message::field(ack.headers, "from"@) == Some(uri::party_text(c.local))
            &&& message::field(ack.headers, "to"@) == Some(uri::party_text(c.remote))
        }),
{
    service::law_a_request_says_whose_it_is(
        e.transport,
        e.cfg.user_agent@,
        Method::Ack,
        c.remote_target,
        c.local,
        c.remote,
        c.call_id,
        c.local_cseq,
        route,
        true,
        branch,
    );
    service::lemma_names();
    let base = call::dialog_request(e, c, Method::Ack, c.local_cseq, route, branch);
    service::lemma_set(
        base.headers,
        "cseq"@,
        Some(engine::cseq_value(c.local_cseq, Method::Ack)),
    );
}

/// What ends an INVITE before it is answered belongs to the transaction of that INVITE: it goes to the
/// same address with the same Via, From and Call-ID and the same number, under its own method.
pub proof fn law_a_cancel_belongs_to_its_invite(c: Call, method: Method, to: Option<Seq<char>>)
    ensures
        ({
            let req = call::same_transaction(c, method, to);
            &&& req.method == method
            &&& req.uri == c.invite.uri
            &&& req.body.len() == 0
            &&& message::values_of(req.headers, "via"@) == message::values_of(
                c.invite.headers,
                "via"@,
            )
            &&& message::field(req.headers, "from"@) == message::field(c.invite.headers, "from"@)
            &&& message::field(req.headers, "call-id"@) == message::field(
                c.invite.headers,
                "call-id"@,
            )
            &&& message::field(req.headers, "cseq"@) == Some(
                text::dec(c.local_cseq as nat) + " "@ + message::method_text(method),
            )
            &&& message::field(req.headers, "content-type"@).is_none()
            &&& message::field(req.headers, "to"@) == match to {
                Some(t) => Some(t),
                None => message::field(c.invite.headers, "to"@),
            }
        }),
{
    service::lemma_names();
    service::lemma_cleared(c.invite.headers, "content-type"@);
    let f = message::without_name(c.invite.headers, "content-type"@);
    let n = engine::cseq_value(c.local_cseq, method);
    service::lemma_set(f, "cseq"@, Some(n));
    let f = message::with_field(f, "cseq"@, n);
    service::lemma_set(f, "to"@, to);
}

/// An INVITE that is asked for credentials is offered again, once: the same offer to the same target
/// from the same caller, under the next number.
pub proof fn law_a_challenged_offer_is_made_again(
    e: Element,
    c: Call,
    up: Upstream,
    resp: message::Answered,
    cnonce: Seq<char>,
    branch: Seq<char>,
    via: message::Hop,
    raw: Seq<char>,
)
    requires
        resp.code == 401 || resp.code == 407,
        engine::posed(resp).is_some(),
        message::field(c.invite.headers, "via"@) == Some(raw),
        message::via_of(raw) == Some(via),
    ensures
        call::can_retry(c, Some(up), resp) <==> c.role == Role::ToSip && !c.answered
            && !c.auth_retried,
        !call::can_retry(c, None, resp),
        ({
            let again = call::retried(e, c, up, resp, cnonce, branch);
            &&& again.call_id == c.call_id && again.local == c.local && again.remote == c.remote
            &&& again.local_cseq == e.cseq
            &&& again.invite.method == c.invite.method && again.invite.uri == c.invite.uri
            &&& again.invite.body == c.invite.body
            &&& message::field(again.invite.headers, "from"@) == message::field(
                c.invite.headers,
                "from"@,
            )
            &&& message::field(again.invite.headers, "to"@) == message::field(
                c.invite.headers,
                "to"@,
            )
            &&& message::field(again.invite.headers, "call-id"@) == message::field(
                c.invite.headers,
                "call-id"@,
            )
            &&& message::field(again.invite.headers, "content-type"@) == message::field(
                c.invite.headers,
                "content-type"@,
            )
            &&& message::field(again.invite.headers, "cseq"@) == Some(
                text::dec(e.cseq as nat) + " "@ + "INVITE"@,
            )
        }),
{
    service::lemma_names();
    service::lemma_credential_names();
    let n = engine::cseq_value(e.cseq, Method::Invite);
    let f0 = c.invite.headers;
    service::lemma_set(f0, "cseq"@, Some(n));
    let f1 = message::with_field(f0, "cseq"@, n);
    let creds = auth::header_text(
        auth::answered(
            engine::posed(resp).unwrap(),
            up.username@,
            up.password@,
            message::method_text(Method::Invite),
            uri::uri_text(c.invite.uri),
            c.invite.body,
            1,
            cnonce,
        ),
    );
    let name = engine::challenge_headers(resp.code).1;
    service::lemma_set(f1, name, Some(creds));
    let f2 = message::with_field(f1, name, creds);
    let v = message::via_text(
        message::Hop {
            params: uri::without_param(via.params, "branch"@).push(
                ("branch"@, Some("z9hG4bK"@ + branch)),
            ),
            ..via
        },
    );
    service::lemma_set(f2, "via"@, Some(v));
}

/// A refusal refuses: a code that is none becomes that the other side is not available, every other is
/// kept, and one that says that the service is not there says when to try again.
pub proof fn law_a_refusal_refuses(e: Element, c: Call, code: u16, tag: Seq<char>)
    ensures
        ({
            let r = super::refusal(e, c, code, tag);
            &&& code >= 400 ==> r.code == code
            &&& code < 400 ==> r.code == 480
            &&& message::field(r.headers, "to"@) == Some(uri::party_text(c.local))
            &&& message::field(r.headers, "call-id"@) == message::field(
                c.invite.headers,
                "call-id"@,
            )
            &&& message::field(r.headers, "cseq"@) == message::field(c.invite.headers, "cseq"@)
            &&& code == 503 ==> message::field(r.headers, "retry-after"@) == Some(
                text::dec(e.cfg.retry_after_secs as nat),
            )
        }),
{
    service::lemma_names();
    let sent: u16 = if code < 400 {
        480
    } else {
        code
    };
    law_a_response_belongs_to_its_invite(e, c, sent, tag);
    let base = call::invite_response(e, c, sent, tag);
    service::lemma_set(
        base.headers,
        "retry-after"@,
        Some(text::dec(e.cfg.retry_after_secs as nat)),
    );
}

/// A reply to a request is a response to it with the code that is given, whatever that is.
pub proof fn law_a_reply_answers_its_request(
    e: Element,
    req: message::Asked,
    code: u16,
    tag: Seq<char>,
)
    ensures
        ({
            let r = sip_side::plain_reply(e, req, code, tag);
            &&& r.code == code
            &&& r.body.len() == 0
            &&& message::values_of(r.headers, "via"@) == message::values_of(req.headers, "via"@)
            &&& message::field(r.headers, "from"@) == message::field(req.headers, "from"@)
            &&& message::field(r.headers, "call-id"@) == message::field(req.headers, "call-id"@)
            &&& message::field(r.headers, "cseq"@) == message::field(req.headers, "cseq"@)
        }),
{
    service::lemma_names();
    service::law_a_response_says_whose_it_is(e.cfg.user_agent@, req, code, None, tag);
    let base = engine::response_for(e.cfg.user_agent@, req, code, None, tag);
    let again = text::dec(e.cfg.retry_after_secs as nat);
    service::lemma_set(base.headers, "retry-after"@, Some(again));
    let f = message::with_field(base.headers, "retry-after"@, again);
    service::lemma_set(f, "warning"@, Some("399 modem2sip \"modem not available\""@));
}

// ------------------------------------------------------------------ messages that are passed on

/// A message from the mobile network is passed on as a MESSAGE from the number it came from, with its
/// content type, and its body is the text, character for character.
pub proof fn law_a_message_is_passed_on_whole(
    e: Element,
    target: uri::Address,
    peer: Seq<char>,
    content_type: Seq<char>,
    body: Seq<char>,
    route: Option<IpAddr>,
    tag: Seq<char>,
    random: Seq<char>,
    branch: Seq<char>,
)
    ensures
        ({
            let req = messaging::announcement(
                e,
                target,
                peer,
                content_type,
                body,
                route,
                tag,
                random,
                branch,
            );
            let from = messaging::sender_party(e, peer, tag);
            let to = messaging::marked_party(target);
            &&& req.method == Method::Message
            &&& req.uri == target
            &&& req.body == encode_utf8(body)
            &&& message::field(req.headers, "content-type"@) == Some(content_type)
            &&& message::field(req.headers, "from"@) == Some(uri::party_text(from))
            &&& message::field(req.headers, "to"@) == Some(uri::party_text(to))
            &&& message::field(req.headers, "call-id"@) == Some(random + "@modem2sip"@)
            &&& number::sanitized(peer).len() > 0 ==> from.uri.user == Some(number::sanitized(peer))
            &&& number::sanitized(peer).len() == 0 ==> from.uri.user == Some("unknown"@)
            &&& from.uri.host == engine::domain_of(e)
            &&& uri::pair_value(from.params, "tag"@) == Some(tag)
            &&& to.uri.user == target.user && to.uri.host == target.host && to.uri.port
                == target.port
            &&& uri::pair_value(to.params, "messagetype"@) == Some("sms"@)
        }),
{
    let from = messaging::sender_party(e, peer, tag);
    let to = messaging::marked_party(target);
    service::law_a_request_says_whose_it_is(
        e.transport,
        e.cfg.user_agent@,
        Method::Message,
        target,
        from,
        to,
        modem_side::own_call_id(random),
        e.cseq,
        route,
        false,
        branch,
    );
    service::lemma_names();
    let base = engine::own_request(
        e.transport,
        e.cfg.user_agent@,
        Method::Message,
        target,
        from,
        to,
        modem_side::own_call_id(random),
        e.cseq,
        route,
        false,
        branch,
    );
    service::lemma_set(base.headers, "content-type"@, Some(content_type));
    round_trip::law_a_set_party_parameter_is_found(
        uri::Party { display: None, uri: uri::bare_address(target), params: seq![] },
        "messagetype"@,
        "sms"@,
        "messagetype"@,
    );
    let user = if number::sanitized(peer).len() == 0 {
        "unknown"@
    } else {
        number::sanitized(peer)
    };
    round_trip::law_a_set_party_parameter_is_found(
        uri::Party {
            display: Some(user),
            uri: modem_side::plain_address(user, engine::domain_of(e)),
            params: seq![],
        },
        "tag"@,
        tag,
        "tag"@,
    );
}

/// What one gateway passes on as plain text, another sends as a short message with that text, to the
/// number it was addressed to.
pub proof fn law_a_text_passed_on_is_sent_on(
    g: Gate,
    e: Element,
    target: uri::Address,
    user: Seq<char>,
    peer: Seq<char>,
    body: Seq<char>,
    route: Option<IpAddr>,
    tag: Seq<char>,
    random: Seq<char>,
    branch: Seq<char>,
)
    requires
        g.modem,
        target.user == Some(user),
        number::sanitized(user).len() > 0,
        round_trip::uri_writable(uri::bare_address(target)),
        !uri::uri_text(uri::bare_address(target)).contains('>'),
    ensures
        messaging::messaged(
            g,
            messaging::announcement(
                e,
                target,
                peer,
                "text/plain"@,
                body,
                route,
                tag,
                random,
                branch,
            ),
        ) == (Messaged::Sms { number: number::sanitized(user), text: body }),
{
    let req = messaging::announcement(
        e,
        target,
        peer,
        "text/plain"@,
        body,
        route,
        tag,
        random,
        branch,
    );
    messaging::law_what_is_announced_is_marked(
        e,
        target,
        peer,
        "text/plain"@,
        body,
        route,
        tag,
        random,
        branch,
    );
    law_a_message_is_passed_on_whole(
        e,
        target,
        peer,
        "text/plain"@,
        body,
        route,
        tag,
        random,
        branch,
    );
    let to = messaging::marked_party(target);
    messaging::lemma_marked_party_writable(target);
    round_trip::law_a_party_reads_back(to);
    text::law_utf8_reads_back(body);
    let kind = "text/plain"@;
    reveal_strlit("text/plain");
    reveal_strlit("json");
    assert forall|i: int| 0 <= i <= kind.len() - 4 implies #[trigger] kind.subrange(i, i + 4)
        != "json"@ by {
        assert(kind.subrange(i, i + 4)[0] != 'j');
    }
    text::law_a_text_is_found_where_it_stands(kind, "json"@);
    assert(kind.take(10) =~= kind);
}

} // verus!
