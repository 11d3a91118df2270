//! What SIP peers ask and answer, and what the gateway does about it.
use vstd::prelude::*;
use vstd::utf8::*;

use super::call;
use super::call::{ActiveCall, Call, Role};
use super::device;
use super::number;
use super::{Ending, Gate, Gateway};
use crate::config::Config;
use crate::net::{IpAddr, SocketAddr};
use crate::sip::engine;
use crate::sip::engine::{Element, SipCore};
use crate::sip::message;
use crate::sip::message::{Method, Request, Response};
use crate::sip::sdp;
use crate::sip::sdp::{Codec, Sdp};
use crate::sip::txn;
use crate::sip::uri;
use crate::sip::uri::{NameAddr, Uri};
use crate::text;

verus! {

// ------------------------------------------------------------------ plain replies

/// A reply without a body; one that says that the modem is missing says when to try again.
pub open spec fn plain_reply(e: Element, req: message::Asked, code: u16, tag: Seq<char>) ->
    message::Answered {
    let base = engine::response_for(e.cfg.user_agent@, req, code, None, tag);
    if code == 503 {
        let f = message::with_field(
            base.headers,
            "retry-after"@,
            text::dec(e.cfg.retry_after_secs as nat),
        );
        message::Answered {
            headers: message::with_field(
                f,
                "warning"@,
                "399 modem2sip \"modem not available\""@,
            ),
            ..base
        }
    } else {
        base
    }
}

pub fn reply(core: &SipCore, req: &Request, code: u16, tag: &str) -> (r: Response)
    ensures
        r@ == plain_reply(core@, req@, code, tag@),
{
    let mut resp = core.make_response_with(req, code, None, tag);
    if code == 503 {
        resp.headers.set("retry-after", text::decimal(core.cfg.retry_after_secs as u64).as_str());
        resp.headers.set("warning", "399 modem2sip \"modem not available\"");
    }
    resp
}

/// Whoever is told that the modem is missing is told when to try again.
pub proof fn law_unavailable_says_when_to_retry(e: Element, req: message::Asked, tag: Seq<char>)
    ensures
        plain_reply(e, req, 503, tag).code == 503,
        message::field(plain_reply(e, req, 503, tag).headers, "retry-after"@) == Some(
            text::dec(e.cfg.retry_after_secs as nat),
        ),
{
    let base = engine::response_for(e.cfg.user_agent@, req, 503, None, tag);
    let n = text::dec(e.cfg.retry_after_secs as nat);
    let f = message::with_field(base.headers, "retry-after"@, n);
    message::law_set_then_get(base.headers, "retry-after"@, n, "warning"@);
    reveal_strlit("retry-after");
    reveal_strlit("warning");
    message::lemma_plain_name("retry-after"@);
    message::lemma_plain_name("warning"@);
    message::law_set_then_get(
        f,
        "warning"@,
        "399 modem2sip \"modem not available\""@,
        "retry-after"@,
    );
}

/// Who handles a request.
#[derive(Debug, Clone, Copy, PartialEq, Eq, Structural)]
pub enum Handler {
    Invite,
    /// An ACK asks for nothing.
    Nobody,
    Bye,
    Cancel,
    Info,
    Message,
    /// The method is not allowed.
    Refuse(u16),
}

pub fn on_sip_request(method: Method) -> (r: Handler)
    ensures
        r == match method {
            Method::Invite => Handler::Invite,
            Method::Ack => Handler::Nobody,
            Method::Bye => Handler::Bye,
            Method::Cancel => Handler::Cancel,
            Method::Info => Handler::Info,
            Method::Message => Handler::Message,
            _ => Handler::Refuse(405),
        },
{
    match method {
        Method::Invite => Handler::Invite,
        Method::Ack => Handler::Nobody,
        Method::Bye => Handler::Bye,
        Method::Cancel => Handler::Cancel,
        Method::Info => Handler::Info,
        Method::Message => Handler::Message,
        _ => Handler::Refuse(405),
    }
}

// ------------------------------------------------------------------ INVITE

/// A call that a peer wants placed.
#[derive(Debug)]
pub struct Placing {
    pub number: String,
    pub sdp: Sdp,
    pub codec: Codec,
    pub to: NameAddr,
    pub from: NameAddr,
    pub call_id: String,
    pub target: Uri,
}

/// A call that a peer wants placed, mathematically.
#[verifier::ext_equal]
pub struct Wanted {
    pub number: Seq<char>,
    pub sdp: sdp::Session,
    pub codec: Codec,
    pub to: uri::Party,
    pub from: uri::Party,
    pub call_id: Seq<char>,
    pub target: uri::Address,
}

impl View for Placing {
    type V = Wanted;

    open spec fn view(&self) -> Wanted {
        Wanted {
            number: self.number@,
            sdp: self.sdp@,
            codec: self.codec,
            to: self.to@,
            from: self.from@,
            call_id: self.call_id@,
            target: self.target@,
        }
    }
}

/// Why a call that was to be placed is not.
#[derive(Debug, Clone, Copy, PartialEq, Eq, Structural)]
pub enum Unplaced {
    /// There is no port for its audio.
    NoPort,
    ModemGone,
    DialRefused,
}

impl Unplaced {
    /// The final response that the caller, who was told to wait, is owed.
    pub fn code(self) -> (r: u16)
        ensures
            r == match self {
                Unplaced::NoPort => 500u16,
                Unplaced::ModemGone => 503u16,
                Unplaced::DialRefused => 503u16,
            },
    {
        match self {
            Unplaced::NoPort => 500,
            Unplaced::ModemGone => 503,
            Unplaced::DialRefused => 503,
        }
    }
}

/// What an INVITE asks for.
#[derive(Debug)]
pub enum InviteStep {
    /// It came again while the call is being set up: the 183 is repeated.
    Repeat,
    /// It came again while the call is being set up: the 180 is repeated.
    Ringing,
    /// It belongs to the call in progress.
    Reinvite,
    Refuse(u16),
    /// A call is to be placed. From the 100 on, the caller stops retransmitting and waits, so every
    /// way out of here owes it a final response.
    Place(Placing),
}

/// What an INVITE asks for, mathematically.
#[verifier::ext_equal]
pub enum Invited {
    Repeat,
    Ringing,
    Reinvite,
    Refuse(u16),
    Place(Wanted),
}

impl View for InviteStep {
    type V = Invited;

    open spec fn view(&self) -> Invited {
        match *self {
            InviteStep::Repeat => Invited::Repeat,
            InviteStep::Ringing => Invited::Ringing,
            InviteStep::Reinvite => Invited::Reinvite,
            InviteStep::Refuse(code) => Invited::Refuse(code),
            InviteStep::Place(p) => Invited::Place(p@),
        }
    }
}

/// The number that an address asks for.
pub open spec fn asked_number(u: uri::Address) -> Seq<char> {
    number::sanitized(
        match u.user {
            Some(n) => n,
            None => ""@,
        },
    )
}

/// What a new INVITE asks of an idle gateway.
pub open spec fn new_call(req: message::Asked) -> Invited {
    match sdp::session_of(text::lossy(req.body)) {
        Some(s) => match sdp::first_codec(s.payload_types) {
            Some(codec) => if !sdp::media_there(s) {
                Invited::Refuse(488)
            } else {
                match (
                    message::party_field(req.headers, "to"@),
                    message::party_field(req.headers, "from"@),
                    message::field(req.headers, "call-id"@),
                ) {
                    (Some(to), Some(from), Some(call_id)) => Invited::Place(
                        Wanted {
                            number: asked_number(req.uri),
                            sdp: s,
                            codec,
                            to,
                            from,
                            call_id,
                            target: match message::party_field(req.headers, "contact"@) {
                                Some(c) => c.uri,
                                None => from.uri,
                            },
                        },
                    ),
                    _ => Invited::Refuse(400),
                }
            },
            None => Invited::Refuse(488),
        },
        None => Invited::Refuse(488),
    }
}

/// What an INVITE asks for: the call in progress is recognised by its Call-ID, any other is refused
/// while there is one; without a modem, a number, or media we can carry, no call is placed.
pub open spec fn invited(g: Gate, req: message::Asked) -> Invited {
    match g.call {
        Some(c) => if message::field(req.headers, "call-id"@) == Some(c.call_id) {
            if c.answered {
                Invited::Reinvite
            } else if c.early_media {
                Invited::Repeat
            } else {
                Invited::Ringing
            }
        } else {
            Invited::Refuse(486)
        },
        None => if !g.modem {
            Invited::Refuse(503)
        } else if asked_number(req.uri).len() == 0 {
            Invited::Refuse(484)
        } else {
            new_call(req)
        },
    }
}

pub(crate) fn number_in(u: &Uri) -> (r: String)
    ensures
        r@ == asked_number(u@),
{
    match &u.user {
        Some(n) => number::sanitize_number(n.as_str()),
        None => number::sanitize_number(""),
    }
}

fn read_new_call(req: &Request, number: String) -> (r: InviteStep)
    requires
        number@ == asked_number(req@.uri),
    ensures
        r@ == new_call(req@),
{
    let s = match Sdp::parse(req.body_str().as_str()) {
        Some(s) => s,
        None => {
            return InviteStep::Refuse(488);
        },
    };
    let codec = match s.negotiate() {
        Some(c) => c,
        None => {
            return InviteStep::Refuse(488);
        },
    };
    if !s.has_media() {
        return InviteStep::Refuse(488);
    }
    let call_id = match req.headers.call_id() {
        Some(id) => Some(text::owned(id)),
        None => None,
    };
    match (req.headers.to(), req.headers.from(), call_id) {
        (Some(to), Some(from), Some(call_id)) => {
            let target = match req.headers.contact() {
                Some(c) => c.uri,
                None => from.uri.clone(),
            };
            InviteStep::Place(Placing { number, sdp: s, codec, to, from, call_id, target })
        },
        _ => InviteStep::Refuse(400),
    }
}

fn has_call_id(req: &Request, call_id: &str) -> (r: bool)
    ensures
        r == (message::field(req@.headers, "call-id"@) == Some(call_id@)),
{
    match req.headers.call_id() {
        Some(id) => text::str_is(id, call_id),
        None => false,
    }
}

/// The call that is placed for a peer.
pub open spec fn placed_call(
    w: Wanted,
    mm_path: Seq<char>,
    req: message::Asked,
    src: SocketAddr,
    port: u16,
    tag: Seq<char>,
    cseq: u32,
    cdr_id: Option<i64>,
) -> Call {
    Call {
        role: Role::FromSip,
        mm_path: Some(mm_path),
        peer_number: w.number,
        call_id: w.call_id,
        local: uri::party_with(w.to, "tag"@, tag),
        remote: w.from,
        remote_target: w.target,
        remote_addr: src,
        local_cseq: cseq,
        invite: req,
        invite_src: Some(src),
        media: false,
        local_rtp_port: port,
        codec: w.codec,
        remote_sdp: Some(w.sdp),
        media_dtmf_pt: None,
        answered: false,
        auth_retried: false,
        ringing_sent: false,
        early_media: false,
        dtmf_via_modem_failed: false,
        cdr_id,
    }
}

impl Gateway {
    pub fn on_sip_invite(&self, req: &Request) -> (r: InviteStep)
        ensures
            r@ == invited(self@, req@),
    {
        if let Some(c) = &self.call {
            if has_call_id(req, c.call_id.as_str()) {
                if c.answered {
                    return InviteStep::Reinvite;
                }
                if c.early_media {
                    return InviteStep::Repeat;
                }
                return InviteStep::Ringing;
            }
            return InviteStep::Refuse(486);
        }
        if !self.modem {
            return InviteStep::Refuse(503);
        }
        let number = number_in(&req.uri);
        if text::chars_of(number.as_str()).len() == 0 {
            return InviteStep::Refuse(484);
        }
        read_new_call(req, number)
    }

    /// The modem is dialling: the call is in progress from now on.
    pub fn place_call(
        &mut self,
        core: &mut SipCore,
        wanted: Placing,
        mm_path: String,
        req: Request,
        src: SocketAddr,
        port: u16,
        tag: &str,
        cdr_id: Option<i64>,
    )
        requires
            old(core).wf(),
        ensures
            final(core).wf(),
            final(core)@ == (Element {
                cseq: ((old(core)@.cseq + 1) % 0x1_0000_0000) as u32,
                ..old(core)@
            }),
            final(self)@ == (Gate {
                call: Some(
                    placed_call(
                        wanted@,
                        mm_path@,
                        req@,
                        src,
                        port,
                        tag@,
                        old(core)@.cseq,
                        cdr_id,
                    ),
                ),
                ..old(self)@
            }),
    {
        let cseq = core.next_cseq();
        self.call = Some(
            ActiveCall {
                role: Role::FromSip,
                mm_path: Some(mm_path),
                peer_number: wanted.number,
                call_id: wanted.call_id,
                local: wanted.to.with_tag(tag),
                remote: wanted.from,
                remote_target: wanted.target,
                remote_addr: src,
                local_cseq: cseq,
                invite: req,
                invite_src: Some(src),
                media: false,
                local_rtp_port: port,
                codec: wanted.codec,
                remote_sdp: Some(wanted.sdp),
                media_dtmf_pt: None,
                answered: false,
                auth_retried: false,
                ringing_sent: false,
                early_media: false,
                dtmf_via_modem_failed: false,
                cdr_id,
            },
        );
    }

    /// The network started sending audio while the call was ringing. Whether the caller is now to be
    /// told to listen to it, with a 183 that describes our media.
    pub fn upgrade_to_early_media(&self) -> (r: bool)
        ensures
            r == match self@.call {
                Some(c) => !c.early_media && !c.answered,
                None => false,
            },
    {
        match &self.call {
            Some(c) => !c.early_media && !c.answered,
            None => false,
        }
    }

    /// The caller was told to listen.
    pub fn early_media_sent(&mut self)
        ensures
            final(self)@ == (Gate {
                call: match old(self)@.call {
                    Some(c) => Some(Call { early_media: true, ..c }),
                    None => None,
                },
                ..old(self)@
            }),
    {
        if let Some(c) = self.call.take() {
            let mut call = c;
            call.early_media = true;
            self.call = Some(call);
        }
    }
}

/// While there is a call, nobody else gets one: an INVITE with another Call-ID, or none, is told so.
pub proof fn law_a_busy_modem_refuses(g: Gate, req: message::Asked)
    requires
        g.call.is_some(),
        message::field(req.headers, "call-id"@) != Some(g.call.unwrap().call_id),
    ensures
        invited(g, req) == Invited::Refuse(486),
{
}

/// Without a modem no call is placed, whatever is asked.
pub proof fn law_a_missing_modem_refuses(g: Gate, req: message::Asked)
    requires
        !g.modem,
    ensures
        !(invited(g, req) is Place),
        g.call.is_none() ==> invited(g, req) == Invited::Refuse(503),
{
}

/// Whatever call is placed, its number holds only what can be dialled, and it is not empty.
pub proof fn law_only_numbers_are_dialled(g: Gate, req: message::Asked)
    ensures
        invited(g, req) matches Invited::Place(w) ==> w.number.len() > 0 && forall|i: int|
            0 <= i < w.number.len() ==> number::is_dialled(#[trigger] w.number[i]) || (i == 0
                && w.number[i] == '+'),
{
    number::law_a_number_holds_only_what_is_dialled(
        match req.uri.user {
            Some(n) => n,
            None => ""@,
        },
    );
}

// ------------------------------------------------------------------ INVITE within the call

/// The number in the CSeq of a message.
pub open spec fn cseq_number(f: message::Fields) -> Option<u32> {
    match txn::sequence_of(f) {
        Some((n, _)) => Some(n),
        None => None,
    }
}

fn number_of_cseq(headers: &message::Headers) -> (r: Option<u32>)
    ensures
        r == cseq_number(headers@),
{
    match headers.cseq() {
        Some((n, _)) => Some(n),
        None => None,
    }
}

/// Not later in the sequence; a message without a number comes before all others.
pub open spec fn not_after(a: Option<u32>, b: Option<u32>) -> bool {
    match (a, b) {
        (None, _) => true,
        (Some(_), None) => false,
        (Some(x), Some(y)) => x <= y,
    }
}

/// An INVITE is still outstanding: the call is not answered, or this is the first INVITE arriving
/// again. On a call that we placed that INVITE is ours, and the peer numbers its own.
pub open spec fn outstanding(c: Call, req: message::Asked) -> bool {
    !c.answered || (c.role == Role::FromSip && not_after(
        cseq_number(req.headers),
        cseq_number(c.invite.headers),
    ))
}

/// The media that a request offers.
pub open spec fn offered_media(req: message::Asked) -> Option<sdp::Session> {
    match sdp::session_of(text::lossy(req.body)) {
        Some(s) => if sdp::media_there(s) {
            Some(s)
        } else {
            None
        },
        None => None,
    }
}

/// Why an INVITE within the call is refused.
pub open spec fn reinvite_refusal(c: Call, req: message::Asked) -> Option<u16> {
    if outstanding(c, req) {
        Some(491)
    } else if !call::in_dialog(c, req) {
        Some(481)
    } else {
        match offered_media(req) {
            Some(o) => if o.payload_types.contains(sdp::codec_number(c.codec)) {
                None
            } else {
                Some(488)
            },
            None => None,
        }
    }
}

/// The media that an INVITE within the call leaves us with.
pub open spec fn media_base(c: Call, req: message::Asked) -> Option<sdp::Session> {
    match offered_media(req) {
        Some(o) => Some(o),
        None => c.remote_sdp,
    }
}

/// The payload type for digits that can be promised: the one that is being decoded, where it is the
/// one that was offered.
pub open spec fn kept_dtmf(c: Call, s: sdp::Session) -> Option<u8> {
    match c.media_dtmf_pt {
        Some(pt) => if s.telephone_event == Some(pt) {
            Some(pt)
        } else {
            None
        },
        None => None,
    }
}

/// The answer to an INVITE within the call.
pub open spec fn reinvite_answer(
    e: Element,
    cfg: Config,
    c: Call,
    req: message::Asked,
    route: Option<IpAddr>,
    tag: Seq<char>,
    now: u64,
) -> message::Answered {
    let base = engine::response_for(e.cfg.user_agent@, req, 200, None, tag);
    let f = message::with_field(base.headers, "to"@, uri::party_text(c.local));
    match media_base(c, req) {
        Some(s) => message::Answered {
            headers: message::with_field(f, "content-type"@, "application/sdp"@),
            body: encode_utf8(
                sdp::session_text(
                    sdp::answered(
                        s,
                        device::rtp_advertised(cfg.rtp, e.transport, route),
                        c.local_rtp_port,
                        c.codec,
                        kept_dtmf(c, s),
                        cfg.audio.period_ms,
                        now,
                    ),
                ),
            ),
            ..base
        },
        None => message::Answered { headers: f, ..base },
    }
}

/// What an INVITE within the call asks for.
#[derive(Debug)]
pub enum ReinviteStep {
    /// There is no call.
    Nothing,
    Refuse(u16),
    Accept {
        resp: Response,
        /// Where the peer wants its media now; what silence there was says nothing any more.
        moved: Option<SocketAddr>,
    },
}

fn offers(v: &Vec<u8>, pt: u8) -> (r: bool)
    ensures
        r == v@.contains(pt),
{
    let mut i: usize = 0;
    while i < v.len()
        invariant
            i <= v@.len(),
            forall|j: int| 0 <= j < i ==> v@[j] != pt,
        decreases v@.len() - i,
    {
        if v[i] == pt {
            assert(v@[i as int] == pt);
            return true;
        }
        i += 1;
    }
    false
}

fn read_offer(req: &Request) -> (r: Option<Sdp>)
    ensures
        call::opt_session(r) == offered_media(req@),
{
    match Sdp::parse(req.body_str().as_str()) {
        Some(s) => if s.has_media() {
            Some(s)
        } else {
            None
        },
        None => None,
    }
}

fn refuse_reinvite(call: &ActiveCall, req: &Request, offer: &Option<Sdp>) -> (r: Option<u16>)
    requires
        call::opt_session(*offer) == offered_media(req@),
    ensures
        r == reinvite_refusal(call@, req@),
{
    let late = match call.role {
        Role::FromSip => match (
            number_of_cseq(&req.headers),
            number_of_cseq(&call.invite.headers),
        ) {
            (None, _) => true,
            (Some(_), None) => false,
            (Some(x), Some(y)) => x <= y,
        },
        Role::ToSip => false,
    };
    if !call.answered || late {
        return Some(491);
    }
    if !call::in_dialog_of(call, req) {
        return Some(481);
    }
    if let Some(o) = offer {
        if !offers(&o.payload_types, call.codec.payload_type()) {
            return Some(488);
        }
    }
    None
}

fn answer_reinvite(
    core: &SipCore,
    cfg: &Config,
    call: &ActiveCall,
    req: &Request,
    offer: &Option<Sdp>,
    route: Option<IpAddr>,
    tag: &str,
    now: u64,
) -> (r: Response)
    requires
        call::opt_session(*offer) == offered_media(req@),
    ensures
        r@ == reinvite_answer(core@, *cfg, call@, req@, route, tag@, now),
{
    let mut resp = core.make_response_with(req, 200, None, tag);
    resp.headers.set("to", call.local.to_string().as_str());
    let base = match offer {
        Some(_) => offer,
        None => &call.remote_sdp,
    };
    if let Some(s) = base {
        let dtmf = match (call.media_dtmf_pt, s.telephone_event) {
            (Some(pt), Some(offered)) => if pt == offered {
                Some(pt)
            } else {
                None
            },
            _ => None,
        };
        let advertised = device::rtp_advertised_ip(&cfg.rtp, &core.transport, route);
        let answer = s.answer_at(
            advertised,
            call.local_rtp_port,
            call.codec,
            dtmf,
            cfg.audio.period_ms,
            now,
        );
        resp.headers.set("content-type", "application/sdp");
        resp.body = vstd::slice::slice_to_vec(answer.to_string().as_str().as_bytes());
    }
    resp
}

impl Gateway {
    /// A second INVITE carrying the Call-ID of the call in progress.
    ///
    /// Only one inside the established dialog with a higher CSeq is a real re-INVITE. The media
    /// session goes on decoding the digits it was started with; if the new offer moved them, the
    /// answer stays quiet about it rather than promising what nothing is listening for.
    pub fn on_sip_reinvite(
        &mut self,
        core: &SipCore,
        cfg: &Config,
        req: &Request,
        route: Option<IpAddr>,
        tag: &str,
        now: u64,
    ) -> (r: ReinviteStep)
        ensures
            match (r, old(self)@.call) {
                (ReinviteStep::Nothing, None) => final(self)@ == old(self)@,
                (ReinviteStep::Refuse(code), Some(c)) => reinvite_refusal(c, req@) == Some(code)
                    && final(self)@ == old(self)@,
                (ReinviteStep::Accept { resp, moved }, Some(c)) => {
                    &&& reinvite_refusal(c, req@).is_none()
                    &&& resp@ == reinvite_answer(core@, *cfg, c, req@, route, tag@, now)
                    &&& moved == match offered_media(req@) {
                        Some(o) => if c.media {
                            Some(SocketAddr { ip: o.address, port: o.port, scope: 0 })
                        } else {
                            None
                        },
                        None => None,
                    }
                    &&& final(self)@ == (Gate {
                        call: Some(Call { remote_sdp: media_base(c, req@), ..c }),
                        ..old(self)@
                    })
                },
                _ => false,
            },
    {
        let c = match self.call.take() {
            Some(c) => c,
            None => {
                return ReinviteStep::Nothing;
            },
        };
        let mut call = c;
        let offer = read_offer(req);
        if let Some(code) = refuse_reinvite(&call, req, &offer) {
            self.call = Some(call);
            return ReinviteStep::Refuse(code);
        }
        let resp = answer_reinvite(core, cfg, &call, req, &offer, route, tag, now);
        let moved = match &offer {
            Some(o) => if call.media {
                Some(SocketAddr { ip: o.address, port: o.port, scope: 0 })
            } else {
                None
            },
            None => None,
        };
        if offer.is_some() {
            call.remote_sdp = offer;
        }
        self.call = Some(call);
        ReinviteStep::Accept { resp, moved }
    }
}

/// The first INVITE arriving again after the call was answered is no new offer.
pub proof fn law_a_repeated_invite_renegotiates_nothing(c: Call, req: message::Asked)
    requires
        c.role == Role::FromSip,
        req.headers == c.invite.headers,
    ensures
        reinvite_refusal(c, req) == Some(491u16),
{
}

// ------------------------------------------------------------------ BYE, CANCEL and INFO

/// Whether a request belongs to the dialog of the call in progress.
pub open spec fn in_current_dialog(g: Gate, req: message::Asked) -> bool {
    match g.call {
        Some(c) => call::in_dialog(c, req),
        None => false,
    }
}

/// RFC 3261 9.2: a CANCEL has an effect only while the transaction of the INVITE is pending. It has
/// no To tag, so the Call-ID and the INVITE's sequence number are what identify it; and it cannot
/// touch a call that we placed.
pub open spec fn cancels_call(g: Gate, req: message::Asked) -> bool {
    match g.call {
        Some(c) => c.role == Role::FromSip && !c.answered && message::field(
            req.headers,
            "call-id"@,
        ) == Some(c.call_id) && cseq_number(req.headers) == cseq_number(c.invite.headers),
        None => false,
    }
}

/// What a CANCEL gets, and the INVITE it cancels where it ends the call.
#[derive(Debug, Clone, Copy, PartialEq, Eq, Structural)]
pub struct CancelStep {
    pub answer: u16,
    pub invite: Option<u16>,
}

/// What an INFO asks for.
#[derive(Debug)]
pub enum InfoStep {
    Answer(u16),
    /// These digits are to be delivered; the answer says whether they were.
    Deliver(String),
}

/// The media type of a request, or the empty one.
pub open spec fn media_type_or(f: message::Fields, otherwise: Seq<char>) -> Seq<char> {
    match message::field(f, "content-type"@) {
        Some(t) => t,
        None => otherwise,
    }
}

/// The digits that an INFO carries.
pub open spec fn carried_digits(req: message::Asked) -> Option<Seq<char>> {
    number::info_digits(media_type_or(req.headers, ""@), text::lossy(req.body))
}

impl Gateway {
    pub fn in_dialog(&self, req: &Request) -> (r: bool)
        ensures
            r == in_current_dialog(self@, req@),
    {
        match &self.call {
            Some(c) => call::in_dialog_of(c, req),
            None => false,
        }
    }

    /// The answer to a BYE. Where it is 200 the call is over.
    pub fn on_sip_bye(&self, req: &Request) -> (r: u16)
        ensures
            r == if in_current_dialog(self@, req@) {
                200u16
            } else {
                481u16
            },
    {
        if self.in_dialog(req) {
            200
        } else {
            481
        }
    }

    /// What a CANCEL gets: an answer in any case. Where it ends the call its INVITE is answered too.
    pub fn on_sip_cancel(&self, req: &Request) -> (r: CancelStep)
        ensures
            r.answer == 200,
            r.invite == if cancels_call(self@, req@) {
                Some(487u16)
            } else {
                None
            },
    {
        CancelStep {
            answer: 200,
            invite: if self.cancels(req) {
                Some(487)
            } else {
                None
            },
        }
    }

    fn cancels(&self, req: &Request) -> (r: bool)
        ensures
            r == cancels_call(self@, req@),
    {
        match &self.call {
            Some(c) => {
                let ours = match c.role {
                    Role::FromSip => !c.answered,
                    Role::ToSip => false,
                };
                ours && has_call_id(req, c.call_id.as_str()) && match (
                    number_of_cseq(&req.headers),
                    number_of_cseq(&c.invite.headers),
                ) {
                    (Some(a), Some(b)) => a == b,
                    (None, None) => true,
                    _ => false,
                }
            },
            None => false,
        }
    }

    /// Only an INFO of the dialog that owns the current call brings digits.
    pub fn on_sip_info(&self, req: &Request) -> (r: InfoStep)
        ensures
            match (r, carried_digits(req@)) {
                (InfoStep::Answer(code), None) => code == 415,
                (InfoStep::Answer(code), Some(d)) => if d.len() == 0 {
                    code == 200
                } else {
                    code == 481 && !(in_current_dialog(self@, req@)
                        && self@.call.unwrap().mm_path.is_some())
                },
                (InfoStep::Deliver(digits), Some(d)) => digits@ == d && d.len() > 0
                    && in_current_dialog(self@, req@) && self@.call.unwrap().mm_path.is_some(),
                _ => false,
            },
    {
        let kind = match req.headers.content_type() {
            Some(t) => t,
            None => "",
        };
        let digits = match number::parse_dtmf_info(kind, req.body_str().as_str()) {
            Some(d) => d,
            None => {
                return InfoStep::Answer(415);
            },
        };
        if text::chars_of(digits.as_str()).len() == 0 {
            return InfoStep::Answer(200);
        }
        let dialling = match &self.call {
            Some(c) => c.mm_path.is_some(),
            None => false,
        };
        if self.in_dialog(req) && dialling {
            InfoStep::Deliver(digits)
        } else {
            InfoStep::Answer(481)
        }
    }
}

/// The answer to an INFO whose digits were delivered, or could not be.
pub fn info_code(delivered: bool) -> (r: u16)
    ensures
        r == if delivered {
            200u16
        } else {
            500u16
        },
{
    if delivered {
        200
    } else {
        500
    }
}

/// Knowing the Call-ID is not enough to hang up a call or to put digits into it.
pub proof fn law_a_stranger_cannot_end_the_call(g: Gate, req: message::Asked)
    requires
        g.call matches Some(c) && uri::pair_value(c.local.params, "tag"@).is_some()
            && uri::pair_value(c.remote.params, "tag"@).is_some() && (call::tag_in(
            req.headers,
            "to"@,
        ) != uri::pair_value(c.local.params, "tag"@) || call::tag_in(req.headers, "from"@)
            != uri::pair_value(c.remote.params, "tag"@)),
    ensures
        !in_current_dialog(g, req),
{
}

/// A CANCEL that comes too late, or for a call that we placed, changes nothing.
pub proof fn law_a_late_cancel_changes_nothing(g: Gate, req: message::Asked)
    requires
        g.call matches Some(c) && (c.answered || c.role == Role::ToSip),
    ensures
        !cancels_call(g, req),
{
}

// ------------------------------------------------------------------ answers to our own INVITE

/// What a response to our INVITE means.
#[derive(Debug, Clone, Copy, PartialEq, Eq, Structural)]
pub enum Heard {
    /// The peer has it.
    Trying,
    /// The peer rings.
    Progress,
    Answered,
    Failed,
}

pub fn hear(resp: &Response) -> (r: Heard)
    ensures
        r == if 100 <= resp@.code < 200 {
            if resp@.code > 100 {
                Heard::Progress
            } else {
                Heard::Trying
            }
        } else if 200 <= resp@.code < 300 {
            Heard::Answered
        } else {
            Heard::Failed
        },
{
    if resp.is_provisional() {
        if resp.code > 100 {
            Heard::Progress
        } else {
            Heard::Trying
        }
    } else if resp.is_success() {
        Heard::Answered
    } else {
        Heard::Failed
    }
}

/// What a rejection of our INVITE asks for.
#[derive(Debug)]
pub struct Rejected {
    /// The ACK, to be sent in any case.
    pub ack: Option<Request>,
    /// The INVITE of the call is to be sent again; otherwise the call is over.
    pub again: bool,
}

/// The call as its peer answered it.
pub open spec fn learned(c: Call, resp: message::Answered, reached: Option<SocketAddr>) -> Call {
    let contact = message::party_field(resp.headers, "contact"@);
    Call {
        remote: match message::party_field(resp.headers, "to"@) {
            Some(to) => to,
            None => c.remote,
        },
        remote_target: match (contact, reached) {
            (Some(p), Some(_)) => p.uri,
            _ => c.remote_target,
        },
        remote_addr: match (contact, reached) {
            (Some(_), Some(a)) => a,
            _ => c.remote_addr,
        },
        ..c
    }
}

/// The media that a response describes.
pub open spec fn answered_media(resp: message::Answered) -> Option<sdp::Session> {
    match sdp::session_of(text::lossy(resp.body)) {
        Some(s) => if sdp::media_there(s) {
            Some(s)
        } else {
            None
        },
        None => None,
    }
}

impl Gateway {
    pub fn call_id_matches(&self, call_id: &str) -> (r: bool)
        ensures
            r == match self@.call {
                Some(c) => c.call_id == call_id@,
                None => false,
            },
    {
        match &self.call {
            Some(c) => text::str_is(c.call_id.as_str(), call_id),
            None => false,
        }
    }

    /// Our INVITE was rejected, given the random parts of an answer to a challenge.
    ///
    /// A challenge is not a rejection: a PBX that authenticates its endpoints answers the first INVITE
    /// with a 401, and giving up on it would mean that no call from the mobile network could ever be
    /// delivered there.
    pub fn on_sip_failed(
        &mut self,
        core: &mut SipCore,
        cfg: &Config,
        resp: &Response,
        cnonce: &str,
        branch: &str,
    ) -> (r: Rejected)
        requires
            old(core).wf(),
        ensures
            final(core).wf(),
            match old(self)@.call {
                Some(c) => {
                    &&& match r.ack {
                        Some(ack) => c.role == Role::ToSip && ack@ == call::same_transaction(
                            c,
                            Method::Ack,
                            message::field(resp@.headers, "to"@),
                        ),
                        None => c.role != Role::ToSip,
                    }
                    &&& r.again == call::can_retry(c, cfg.sip.register, resp@)
                    &&& r.again ==> final(self)@ == (Gate {
                        call: Some(
                            call::retried(
                                old(core)@,
                                c,
                                cfg.sip.register.unwrap(),
                                resp@,
                                cnonce@,
                                branch@,
                            ),
                        ),
                        ..old(self)@
                    }) && final(core)@ == (Element {
                        cseq: ((old(core)@.cseq + 1) % 0x1_0000_0000) as u32,
                        ..old(core)@
                    })
                    &&& !r.again ==> final(self)@ == old(self)@ && final(core)@ == old(core)@
                },
                None => r.ack.is_none() && !r.again && final(self)@ == old(self)@ && final(core)@
                    == old(core)@,
            },
    {
        match self.call.take() {
            Some(c) => {
                let mut call = c;
                let ack = call::ack_failure(&call, resp);
                let again = call::retry_invite_with_auth(
                    core,
                    &mut call,
                    &cfg.sip.register,
                    resp,
                    cnonce,
                    branch,
                );
                self.call = Some(call);
                Rejected { ack, again }
            },
            None => Rejected { ack: None, again: false },
        }
    }

    /// Our INVITE was answered with a 2xx: learn the remote tag and the dialog target from it, given
    /// the address of its contact where that could be found.
    pub fn on_sip_answered(&mut self, resp: &Response, reached: Option<SocketAddr>)
        ensures
            final(self)@ == (Gate {
                call: match old(self)@.call {
                    Some(c) => Some(learned(c, resp@, reached)),
                    None => None,
                },
                ..old(self)@
            }),
    {
        if let Some(c) = self.call.take() {
            let mut call = c;
            if let Some(to) = resp.headers.to() {
                call.remote = to;
            }
            if let (Some(contact), Some(addr)) = (resp.headers.contact(), reached) {
                call.remote_target = contact.uri;
                call.remote_addr = addr;
            }
            self.call = Some(call);
        }
    }

    /// The 2xx was acknowledged, so the dialog is established and every failure from now on ends it
    /// with a BYE. Returns where the media goes; without media the call is to be dropped.
    pub fn take_answer(&mut self, resp: &Response) -> (r: Option<SocketAddr>)
        ensures
            match old(self)@.call {
                Some(c) => match answered_media(resp@) {
                    Some(s) => r == Some(SocketAddr { ip: s.address, port: s.port, scope: 0 }) && final(self)@
                        == (Gate {
                        call: Some(
                            Call {
                                answered: true,
                                codec: match sdp::first_codec(s.payload_types) {
                                    Some(k) => k,
                                    None => Codec::Pcmu,
                                },
                                remote_sdp: Some(s),
                                ..c
                            },
                        ),
                        ..old(self)@
                    }),
                    None => r.is_none() && final(self)@ == (Gate {
                        call: Some(Call { answered: true, ..c }),
                        ..old(self)@
                    }),
                },
                None => r.is_none() && final(self)@ == old(self)@,
            },
    {
        let c = match self.call.take() {
            Some(c) => c,
            None => {
                return None;
            },
        };
        let mut call = c;
        call.answered = true;
        let answer = match Sdp::parse(resp.body_str().as_str()) {
            Some(s) => if s.has_media() {
                Some(s)
            } else {
                None
            },
            None => None,
        };
        match answer {
            Some(s) => {
                call.codec = match s.negotiate() {
                    Some(k) => k,
                    None => Codec::Pcmu,
                };
                let dest = SocketAddr { ip: s.address, port: s.port, scope: 0 };
                call.remote_sdp = Some(s);
                self.call = Some(call);
                Some(dest)
            },
            None => {
                self.call = Some(call);
                None
            },
        }
    }
}

// ------------------------------------------------------------------ the watchdog

/// Whether a peer that sends nothing is expected to send something.
pub open spec fn peer_should_send(c: Call) -> bool {
    match c.remote_sdp {
        Some(s) => sdp::sends(s.sendrecv),
        None => true,
    }
}

/// Why a call whose media runs has to end.
pub open spec fn media_ending(
    c: Call,
    audio_failed: bool,
    silence_ms: u64,
    timeout_secs: u64,
) -> Option<Ending> {
    if !c.media {
        None
    } else if audio_failed {
        Some(Ending::AudioDied)
    } else if peer_should_send(c) && timeout_secs != 0 && silence_ms > timeout_secs * 1000 {
        Some(Ending::PeerSilent)
    } else {
        None
    }
}

impl Gateway {
    /// The sound card may have given up, and a SIP peer that stopped sending is the only sign we get
    /// that it is gone. A peer that offered a=recvonly or a=inactive has told us it will send nothing,
    /// so its silence is no such sign.
    pub fn check_media(&self, audio_failed: bool, silence_ms: u64, timeout_secs: u64) -> (r: Option<
        Ending,
    >)
        ensures
            r == match self@.call {
                Some(c) => media_ending(c, audio_failed, silence_ms, timeout_secs),
                None => None,
            },
    {
        let c = match &self.call {
            Some(c) => c,
            None => {
                return None;
            },
        };
        if !c.media {
            return None;
        }
        if audio_failed {
            return Some(Ending::AudioDied);
        }
        let sends = match &c.remote_sdp {
            Some(s) => s.sendrecv.peer_sends(),
            None => true,
        };
        if sends && timeout_secs != 0 && silence_ms as u128 > timeout_secs as u128 * 1000 {
            return Some(Ending::PeerSilent);
        }
        None
    }
}

/// A peer that said it would send nothing is not hung up for its silence.
pub proof fn law_a_held_call_is_kept(c: Call, silence_ms: u64, timeout_secs: u64)
    requires
        c.remote_sdp matches Some(s) && (s.sendrecv == sdp::Direction::RecvOnly || s.sendrecv
            == sdp::Direction::Inactive),
    ensures
        media_ending(c, false, silence_ms, timeout_secs).is_none(),
{
}

} // verus!
