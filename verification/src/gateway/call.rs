//! The call in progress, its dialog, and the requests and responses it gives rise to.
use vstd::prelude::*;
use vstd::utf8::*;

use super::device;
use crate::config::{Config, Upstream};
use crate::net::{IpAddr, SocketAddr};
use crate::sip::auth;
use crate::sip::engine;
use crate::sip::engine::{Element, SipCore};
use crate::sip::message;
use crate::sip::message::{Method, Request, Response};
use crate::sip::sdp;
use crate::sip::sdp::{Codec, Sdp};
use crate::sip::uri;
use crate::sip::uri::{NameAddr, Uri};
use crate::text;

verus! {

#[derive(Debug, Clone, Copy, PartialEq, Eq, Structural)]
pub enum Role {
    /// SIP to modem: we are the UAS.
    FromSip,
    /// Modem to SIP: we are the UAC.
    ToSip,
}

#[derive(Debug)]
pub struct ActiveCall {
    pub role: Role,
    /// ModemManager call object.
    pub mm_path: Option<String>,
    pub peer_number: String,
    pub call_id: String,
    pub local: NameAddr,
    pub remote: NameAddr,
    pub remote_target: Uri,
    pub remote_addr: SocketAddr,
    pub local_cseq: u32,
    /// The INVITE we received (FromSip) or sent (ToSip).
    pub invite: Request,
    pub invite_src: Option<SocketAddr>,
    /// The media session is running.
    pub media: bool,
    pub local_rtp_port: u16,
    pub codec: Codec,
    pub remote_sdp: Option<Sdp>,
    /// The telephone-event payload type the running media session decodes. Fixed when the session
    /// starts, so a re-INVITE cannot move it.
    pub media_dtmf_pt: Option<u8>,
    pub answered: bool,
    /// A digest challenge on our own INVITE has already been answered once, so a second one is a
    /// refusal rather than an invitation to try again.
    pub auth_retried: bool,
    pub ringing_sent: bool,
    /// A 183 with SDP has been sent and the audio path is already up.
    pub early_media: bool,
    /// `Call.SendDtmf` was refused for this call, so the rest of its digits are played in-band. The
    /// next call may negotiate a codec that works.
    pub dtmf_via_modem_failed: bool,
    pub cdr_id: Option<i64>,
}

/// A call, mathematically.
#[verifier::ext_equal]
pub struct Call {
    pub role: Role,
    pub mm_path: Option<Seq<char>>,
    pub peer_number: Seq<char>,
    pub call_id: Seq<char>,
    pub local: uri::Party,
    pub remote: uri::Party,
    pub remote_target: uri::Address,
    pub remote_addr: SocketAddr,
    pub local_cseq: u32,
    pub invite: message::Asked,
    pub invite_src: Option<SocketAddr>,
    pub media: bool,
    pub local_rtp_port: u16,
    pub codec: Codec,
    pub remote_sdp: Option<sdp::Session>,
    pub media_dtmf_pt: Option<u8>,
    pub answered: bool,
    pub auth_retried: bool,
    pub ringing_sent: bool,
    pub early_media: bool,
    pub dtmf_via_modem_failed: bool,
    pub cdr_id: Option<i64>,
}

pub open spec fn opt_session(v: Option<Sdp>) -> Option<sdp::Session> {
    match v {
        Some(s) => Some(s@),
        None => None,
    }
}

impl View for ActiveCall {
    type V = Call;

    open spec fn view(&self) -> Call {
        Call {
            role: self.role,
            mm_path: text::opt_text(self.mm_path),
            peer_number: self.peer_number@,
            call_id: self.call_id@,
            local: self.local@,
            remote: self.remote@,
            remote_target: self.remote_target@,
            remote_addr: self.remote_addr,
            local_cseq: self.local_cseq,
            invite: self.invite@,
            invite_src: self.invite_src,
            media: self.media,
            local_rtp_port: self.local_rtp_port,
            codec: self.codec,
            remote_sdp: opt_session(self.remote_sdp),
            media_dtmf_pt: self.media_dtmf_pt,
            answered: self.answered,
            auth_retried: self.auth_retried,
            ringing_sent: self.ringing_sent,
            early_media: self.early_media,
            dtmf_via_modem_failed: self.dtmf_via_modem_failed,
            cdr_id: self.cdr_id,
        }
    }
}

/// Where responses to the INVITE of a call go.
pub open spec fn invite_dest(c: Call) -> SocketAddr {
    match c.invite_src {
        Some(a) => a,
        None => c.remote_addr,
    }
}

pub fn invite_destination(call: &ActiveCall) -> (r: SocketAddr)
    ensures
        r == invite_dest(call@),
{
    match call.invite_src {
        Some(a) => a,
        None => call.remote_addr,
    }
}

// ------------------------------------------------------------------ dialogs

/// The tag of a party in a header.
pub open spec fn tag_in(f: message::Fields, name: Seq<char>) -> Option<Seq<char>> {
    match message::party_field(f, name) {
        Some(p) => uri::pair_value(p.params, "tag"@),
        None => None,
    }
}

/// A request belongs to a dialog by its Call-ID and both tags. The tag of the peer is only known
/// once it has answered or offered one.
pub open spec fn in_dialog(c: Call, req: message::Asked) -> bool {
    let ours = uri::pair_value(c.local.params, "tag"@);
    let theirs = uri::pair_value(c.remote.params, "tag"@);
    &&& message::field(req.headers, "call-id"@) == Some(c.call_id)
    &&& ours.is_some() ==> tag_in(req.headers, "to"@) == ours
    &&& theirs.is_some() ==> tag_in(req.headers, "from"@) == theirs
}

fn same_text(a: Option<&str>, b: Option<&str>) -> (r: bool)
    ensures
        r == (text::opt_str(a) == text::opt_str(b)),
{
    match (a, b) {
        (Some(x), Some(y)) => text::str_is(x, y),
        (None, None) => true,
        _ => false,
    }
}

fn tag_is(party: &Option<NameAddr>, tag: &str) -> (r: bool)
    ensures
        r == match message::opt_party(*party) {
            Some(p) => uri::pair_value(p.params, "tag"@) == Some(tag@),
            None => false,
        },
{
    match party {
        Some(p) => same_text(p.tag(), Some(tag)),
        None => false,
    }
}

/// Does `req` belong to `call`'s dialog?
///
/// The Call-ID alone is not enough: it travels in the clear on every packet of the call, so matching
/// on it would let anyone who can reach the SIP port hang the call up with a BYE or push digits into
/// it with an INFO.
pub fn in_dialog_of(call: &ActiveCall, req: &Request) -> (r: bool)
    ensures
        r == in_dialog(call@, req@),
{
    if !same_text(req.headers.call_id(), Some(call.call_id.as_str())) {
        return false;
    }
    if let Some(ours) = call.local.tag() {
        if !tag_is(&req.headers.to(), ours) {
            return false;
        }
    }
    match call.remote.tag() {
        Some(theirs) => tag_is(&req.headers.from(), theirs),
        None => true,
    }
}

/// Knowing the Call-ID is not enough: once both parties have tags, a request that lacks or guesses
/// either of them is outside the dialog.
pub proof fn law_a_dialog_takes_both_tags(c: Call, req: message::Asked)
    requires
        uri::pair_value(c.local.params, "tag"@).is_some(),
        uri::pair_value(c.remote.params, "tag"@).is_some(),
        tag_in(req.headers, "to"@) != uri::pair_value(c.local.params, "tag"@) || tag_in(
            req.headers,
            "from"@,
        ) != uri::pair_value(c.remote.params, "tag"@),
    ensures
        !in_dialog(c, req),
{
}

// ------------------------------------------------------------------ requests within the dialog

/// A request within the dialog of a call.
pub open spec fn dialog_request(
    e: Element,
    c: Call,
    method: Method,
    cseq: u32,
    route: Option<IpAddr>,
    branch: Seq<char>,
) -> message::Asked {
    engine::own_request(
        e.transport,
        e.cfg.user_agent@,
        method,
        c.remote_target,
        c.local,
        c.remote,
        c.call_id,
        cseq,
        route,
        true,
        branch,
    )
}

/// Build the next request within the dialog, given the random part of its branch.
pub fn build_in_dialog_request(
    core: &mut SipCore,
    call: &ActiveCall,
    method: Method,
    route: Option<IpAddr>,
    branch: &str,
) -> (r: Request)
    requires
        old(core).wf(),
    ensures
        final(core).wf(),
        final(core)@ == (Element {
            cseq: ((old(core)@.cseq + 1) % 0x1_0000_0000) as u32,
            ..old(core)@
        }),
        r@ == dialog_request(old(core)@, call@, method, old(core)@.cseq, route, branch@),
{
    let cseq = core.next_cseq();
    core.build_request_with(
        method,
        call.remote_target.clone(),
        &call.local,
        &call.remote,
        call.call_id.as_str(),
        cseq,
        route,
        true,
        branch,
    )
}

/// The ACK for a 2xx: a request of the dialog that keeps the sequence number of the INVITE, which it
/// names last.
pub open spec fn acknowledgement(
    e: Element,
    c: Call,
    route: Option<IpAddr>,
    branch: Seq<char>,
) -> message::Asked {
    let base = dialog_request(e, c, Method::Ack, c.local_cseq, route, branch);
    message::Asked {
        headers: message::with_field(
            base.headers,
            "cseq"@,
            engine::cseq_value(c.local_cseq, Method::Ack),
        ),
        ..base
    }
}

/// The ACK for a 2xx keeps the sequence number of the INVITE.
pub fn build_ack(core: &SipCore, call: &ActiveCall, route: Option<IpAddr>, branch: &str) -> (r:
    Request)
    ensures
        r@ == acknowledgement(core@, call@, route, branch@),
{
    let mut ack = core.build_request_with(
        Method::Ack,
        call.remote_target.clone(),
        &call.local,
        &call.remote,
        call.call_id.as_str(),
        call.local_cseq,
        route,
        true,
        branch,
    );
    ack.headers.set("cseq", engine::cseq_string(call.local_cseq, Method::Ack).as_str());
    ack
}

/// The body that carries a digit.
pub open spec fn relay_body(digit: Seq<char>) -> Seq<char> {
    "Signal="@ + digit + "\r\nDuration=250\r\n"@
}

/// An INFO that carries a digit.
pub open spec fn digit_request(
    e: Element,
    c: Call,
    digit: Seq<char>,
    route: Option<IpAddr>,
    branch: Seq<char>,
) -> message::Asked {
    let base = dialog_request(e, c, Method::Info, e.cseq, route, branch);
    message::Asked {
        headers: message::with_field(base.headers, "content-type"@, "application/dtmf-relay"@),
        body: encode_utf8(relay_body(digit)),
        ..base
    }
}

/// A digit from the mobile side, as an INFO for the peer.
pub fn send_dtmf_info(
    core: &mut SipCore,
    call: &ActiveCall,
    digit: &str,
    route: Option<IpAddr>,
    branch: &str,
) -> (r: Request)
    requires
        old(core).wf(),
    ensures
        final(core).wf(),
        final(core)@ == (Element {
            cseq: ((old(core)@.cseq + 1) % 0x1_0000_0000) as u32,
            ..old(core)@
        }),
        r@ == digit_request(old(core)@, call@, digit@, route, branch@),
{
    let mut req = build_in_dialog_request(core, call, Method::Info, route, branch);
    req.headers.set("content-type", "application/dtmf-relay");
    let mut body = text::owned("Signal=");
    body.append(digit);
    body.append("\r\nDuration=250\r\n");
    req.body = vstd::slice::slice_to_vec(body.as_str().as_bytes());
    req
}

// ------------------------------------------------------------------ requests of the transaction

/// Our own INVITE turned into a request of the same transaction.
pub open spec fn same_transaction(c: Call, method: Method, to: Option<Seq<char>>) -> message::Asked {
    let f = message::without_name(c.invite.headers, message::canonical_name("content-type"@));
    let f = message::with_field(f, "cseq"@, engine::cseq_value(c.local_cseq, method));
    message::Asked {
        method,
        headers: match to {
            Some(t) => message::with_field(f, "to"@, t),
            None => f,
        },
        body: seq![],
        ..c.invite
    }
}

fn within_transaction(call: &ActiveCall, method: Method, to: Option<&str>) -> (r: Request)
    ensures
        r@ == same_transaction(call@, method, text::opt_str(to)),
{
    let mut req = call.invite.clone();
    req.method = method;
    req.body = Vec::new();
    req.headers.remove("content-type");
    req.headers.set("cseq", engine::cseq_string(call.local_cseq, method).as_str());
    if let Some(t) = to {
        req.headers.set("to", t);
    }
    req
}

/// RFC 3261 17.1.1.3: a non-2xx final response to an INVITE has to be ACKed by the transaction,
/// reusing the INVITE's branch and taking the To header (with the peer's tag) from the response.
/// Without it the peer retransmits the rejection for 32 s and logs a timeout.
pub fn ack_failure(call: &ActiveCall, resp: &Response) -> (r: Option<Request>)
    ensures
        match r {
            Some(ack) => call@.role == Role::ToSip && ack@ == same_transaction(
                call@,
                Method::Ack,
                message::field(resp@.headers, "to"@),
            ),
            None => call@.role != Role::ToSip,
        },
{
    match call.role {
        Role::ToSip => Some(within_transaction(call, Method::Ack, resp.headers.get("to"))),
        Role::FromSip => None,
    }
}

/// An INVITE of ours that has not been answered can be cancelled.
pub open spec fn can_cancel(c: Call) -> bool {
    c.role == Role::ToSip && !c.answered
}

/// CANCEL an INVITE we sent that has not been answered yet.
pub fn cancel_outgoing_invite(call: &ActiveCall) -> (r: Option<Request>)
    ensures
        match r {
            Some(cancel) => can_cancel(call@) && cancel@ == same_transaction(
                call@,
                Method::Cancel,
                None,
            ),
            None => !can_cancel(call@),
        },
{
    match call.role {
        Role::ToSip => if call.answered {
            None
        } else {
            Some(within_transaction(call, Method::Cancel, None))
        },
        Role::FromSip => None,
    }
}

/// Whether a challenge on our INVITE is answered: once, before the call is, with credentials, and if
/// there is a challenge among those posed that we can answer.
pub open spec fn can_retry(c: Call, up: Option<Upstream>, resp: message::Answered) -> bool {
    c.role == Role::ToSip && !c.answered && !c.auth_retried && up.is_some() && engine::is_challenge(
        resp.code,
    ) && engine::posed(resp).is_some()
}

/// The INVITE again, with a new sequence number, credentials and a branch of its own: it is a new
/// transaction, not a retransmission of the one that was refused.
pub open spec fn reoffered(
    invite: message::Asked,
    resp: message::Answered,
    up: Upstream,
    cseq: u32,
    cnonce: Seq<char>,
    branch: Seq<char>,
) -> message::Asked {
    let creds = auth::answered(
        engine::posed(resp).unwrap(),
        up.username@,
        up.password@,
        message::method_text(Method::Invite),
        uri::uri_text(invite.uri),
        invite.body,
        1,
        cnonce,
    );
    message::Asked {
        headers: engine::with_branch(
            message::with_field(
                message::with_field(
                    invite.headers,
                    "cseq"@,
                    engine::cseq_value(cseq, Method::Invite),
                ),
                engine::challenge_headers(resp.code).1,
                auth::header_text(creds),
            ),
            branch,
        ),
        ..invite
    }
}

/// The call with its INVITE sent anew.
pub open spec fn retried(
    e: Element,
    c: Call,
    up: Upstream,
    resp: message::Answered,
    cnonce: Seq<char>,
    branch: Seq<char>,
) -> Call {
    Call {
        auth_retried: true,
        local_cseq: e.cseq,
        invite: reoffered(c.invite, resp, up, e.cseq, cnonce, branch),
        ..c
    }
}

/// Answer a digest challenge on the INVITE we sent, given the random parts of the answer. Where this
/// returns true the INVITE of the call is to be sent again.
pub fn retry_invite_with_auth(
    core: &mut SipCore,
    call: &mut ActiveCall,
    up: &Option<Upstream>,
    resp: &Response,
    cnonce: &str,
    branch: &str,
) -> (r: bool)
    requires
        old(core).wf(),
    ensures
        final(core).wf(),
        r == can_retry(old(call)@, *up, resp@),
        r ==> final(call)@ == retried(
            old(core)@,
            old(call)@,
            up.unwrap(),
            resp@,
            cnonce@,
            branch@,
        ) && final(core)@ == (Element {
            cseq: ((old(core)@.cseq + 1) % 0x1_0000_0000) as u32,
            ..old(core)@
        }),
        !r ==> final(call)@ == old(call)@ && final(core)@ == old(core)@,
{
    if call.answered || call.auth_retried {
        return false;
    }
    match call.role {
        Role::ToSip => {},
        Role::FromSip => {
            return false;
        },
    }
    let up = match up {
        Some(u) => u,
        None => {
            return false;
        },
    };
    if resp.code != 401 && resp.code != 407 {
        return false;
    }
    let (asked_in, answer_in) = if resp.code == 401 {
        ("www-authenticate", "authorization")
    } else {
        ("proxy-authenticate", "proxy-authorization")
    };
    let values = resp.headers.get_all(asked_in);
    let challenge = match auth::pick_challenge(&values) {
        Some(c) => c,
        None => {
            return false;
        },
    };
    let answer = auth::answer_with(
        &challenge,
        up.username.as_str(),
        up.password.as_str(),
        Method::Invite.as_str(),
        call.invite.uri.to_string().as_str(),
        call.invite.body.as_slice(),
        1,
        cnonce,
    );
    let mut invite = call.invite.clone();
    let cseq = core.next_cseq();
    invite.headers.set("cseq", engine::cseq_string(cseq, Method::Invite).as_str());
    invite.headers.set(answer_in, answer.to_header().as_str());
    engine::refresh_via_branch_with(&mut invite.headers, branch);
    call.invite = invite;
    call.local_cseq = cseq;
    call.auth_retried = true;
    true
}

/// A challenge is answered once: what was sent anew is not sent anew again.
pub proof fn law_a_challenge_is_answered_once(
    e: Element,
    c: Call,
    up: Upstream,
    resp: message::Answered,
    cnonce: Seq<char>,
    branch: Seq<char>,
    again: message::Answered,
)
    ensures
        !can_retry(retried(e, c, up, resp, cnonce, branch), Some(up), again),
{
}

// ------------------------------------------------------------------ responses to the INVITE

/// The methods that we understand.
pub const ALLOWED: &'static str = "INVITE, ACK, CANCEL, BYE, OPTIONS, INFO, MESSAGE";

/// A response to the INVITE of a call, with our tag in its To.
pub open spec fn invite_response(e: Element, c: Call, code: u16, tag: Seq<char>) -> message::Answered {
    let base = engine::response_for(e.cfg.user_agent@, c.invite, code, None, tag);
    message::Answered {
        headers: message::with_field(base.headers, "to"@, uri::party_text(c.local)),
        ..base
    }
}

/// A response to the INVITE of the call. The tag only serves a response that has no To of its own.
pub fn respond_to_invite(core: &SipCore, call: &ActiveCall, code: u16, tag: &str) -> (r: Response)
    ensures
        r@ == invite_response(core@, call@, code, tag@),
{
    let mut resp = core.make_response_with(&call.invite, code, None, tag);
    resp.headers.set("to", call.local.to_string().as_str());
    resp
}

/// A provisional response; a 180 is remembered.
pub fn send_provisional(core: &SipCore, call: &mut ActiveCall, code: u16, tag: &str) -> (r: Response)
    ensures
        r@ == invite_response(core@, old(call)@, code, tag@),
        final(call)@ == (Call {
            ringing_sent: old(call)@.ringing_sent || code == 180,
            ..old(call)@
        }),
{
    let resp = respond_to_invite(core, call, code, tag);
    if code == 180 {
        call.ringing_sent = true;
    }
    resp
}

/// A response to the INVITE of a call that describes our media.
pub open spec fn media_response(
    e: Element,
    cfg: Config,
    c: Call,
    code: u16,
    route: Option<IpAddr>,
    tag: Seq<char>,
    now: u64,
) -> message::Answered {
    let base = engine::response_for(e.cfg.user_agent@, c.invite, code, None, tag);
    let f = message::with_field(base.headers, "content-type"@, "application/sdp"@);
    let f = message::with_field(f, "to"@, uri::party_text(c.local));
    let answer = sdp::answered(
        c.remote_sdp.unwrap(),
        device::rtp_advertised(cfg.rtp, e.transport, route),
        c.local_rtp_port,
        c.codec,
        Some(cfg.rtp.dtmf_payload_type),
        cfg.audio.period_ms,
        now,
    );
    message::Answered {
        headers: message::with_field(f, "allow"@, ALLOWED@),
        body: encode_utf8(sdp::session_text(answer)),
        ..base
    }
}

/// Answer the pending INVITE with `code` and an SDP answer, given the source address towards the
/// peer, a tag and the time. Used for both the early-media 183 and the final 200, which describe the
/// same transport. There is nothing to answer where the peer described no media.
pub fn respond_with_media(
    core: &SipCore,
    cfg: &Config,
    call: &ActiveCall,
    code: u16,
    route: Option<IpAddr>,
    tag: &str,
    now: u64,
) -> (r: Option<Response>)
    ensures
        match r {
            Some(resp) => call@.remote_sdp.is_some() && resp@ == media_response(
                core@,
                *cfg,
                call@,
                code,
                route,
                tag@,
                now,
            ),
            None => call@.remote_sdp.is_none(),
        },
{
    match &call.remote_sdp {
        Some(remote) => {
            let advertised = device::rtp_advertised_ip(&cfg.rtp, &core.transport, route);
            let answer = remote.answer_at(
                advertised,
                call.local_rtp_port,
                call.codec,
                Some(cfg.rtp.dtmf_payload_type),
                cfg.audio.period_ms,
                now,
            );
            let mut resp = core.make_response_with(&call.invite, code, None, tag);
            resp.headers.set("content-type", "application/sdp");
            resp.headers.set("to", call.local.to_string().as_str());
            resp.headers.set("allow", ALLOWED);
            resp.body = vstd::slice::slice_to_vec(answer.to_string().as_str().as_bytes());
            Some(resp)
        },
        None => None,
    }
}

/// The provisional and the final response describe the same media.
pub proof fn law_early_media_and_answer_agree(
    e: Element,
    cfg: Config,
    c: Call,
    route: Option<IpAddr>,
    tag: Seq<char>,
    now: u64,
)
    ensures
        media_response(e, cfg, c, 183, route, tag, now).body == media_response(
            e,
            cfg,
            c,
            200,
            route,
            tag,
            now,
        ).body,
{
}

// ------------------------------------------------------------------ the media session

/// Where the media of a call goes, and whether its session has to be opened.
#[derive(Debug, Clone, Copy, PartialEq, Eq, Structural)]
pub enum Opening {
    /// It is running.
    Running,
    /// It is to be opened towards this address.
    Open(SocketAddr),
    /// The peer described no media.
    NoDescription,
}

/// What has to be done for the media session of the call to run.
pub fn open_media(call: &ActiveCall) -> (r: Opening)
    ensures
        r == if call@.media {
            Opening::Running
        } else {
            match call@.remote_sdp {
                Some(s) => Opening::Open(SocketAddr { ip: s.address, port: s.port, scope: 0 }),
                None => Opening::NoDescription,
            }
        },
{
    if call.media {
        return Opening::Running;
    }
    match &call.remote_sdp {
        Some(s) => Opening::Open(SocketAddr { ip: s.address, port: s.port, scope: 0 }),
        None => Opening::NoDescription,
    }
}

/// The media session of the call runs now, decoding the digits that the peer announced.
pub fn media_started(call: &mut ActiveCall)
    ensures
        final(call)@ == (Call {
            media: true,
            media_dtmf_pt: match old(call)@.remote_sdp {
                Some(s) => s.telephone_event,
                None => None,
            },
            ..old(call)@
        }),
{
    call.media_dtmf_pt = match &call.remote_sdp {
        Some(s) => s.telephone_event,
        None => None,
    };
    call.media = true;
}

} // verus!
