//! What the modem reports, and what the gateway does about it.
use vstd::prelude::*;

use super::call;
use super::call::{ActiveCall, Call, Role};
use super::device;
use super::number;
use super::{Ending, Gate, Gateway};
use crate::config::{Config, DtmfMethod};
use crate::mm::proxies::call as call_state;
use crate::mm::watcher::ModemEvent;
use crate::mm::CallInfo;
use crate::net::{IpAddr, SocketAddr};
use crate::sip::engine;
use crate::sip::engine::{Element, SipCore};
use crate::sip::message;
use crate::sip::message::Method;
use crate::sip::sdp;
use crate::sip::sdp::{Codec, Sdp};
use crate::sip::uri;
use crate::sip::uri::{NameAddr, Uri};
use crate::text;

verus! {

// ------------------------------------------------------------------ events

/// What an event of the modem asks for.
#[derive(Debug, Clone, Copy, PartialEq, Eq, Structural)]
pub enum ModemStep {
    Nothing,
    /// The call object of the event is to be read, and handed to `on_mm_call_added`.
    ReadCall,
    /// The message of the event is to be read, and handed to `on_sms_added`.
    ReadSms,
    /// Alerting has started: with early media the audio path is opened first.
    Ring { early_media: bool },
    /// The mobile network reports the call as connected.
    Answer,
    /// The digit of the event goes to the peer.
    SendDigit,
    /// The call ends.
    End { why: Ending, code: u16 },
}

/// Whether an object is the call in progress.
pub open spec fn is_own(g: Gate, path: Seq<char>) -> bool {
    match g.call {
        Some(c) => c.mm_path == Some(path),
        None => false,
    }
}

/// What the caller is told when the mobile call ended.
pub open spec fn ended_code(cause: u32, answered: bool) -> u16 {
    if cause == call_state::REASON_REFUSED_OR_BUSY {
        486
    } else if cause == call_state::REASON_ERROR || cause == call_state::REASON_AUDIO_SETUP_FAILED {
        500
    } else if answered {
        200
    } else {
        480
    }
}

/// What a state of the call in progress asks for.
pub open spec fn state_step(c: Call, new: i32, cause: u32, early_media: bool) -> ModemStep {
    if new == call_state::RINGING_OUT || new == call_state::DIALING {
        if c.role == Role::FromSip && !c.ringing_sent {
            ModemStep::Ring { early_media }
        } else {
            ModemStep::Nothing
        }
    } else if new == call_state::ACTIVE {
        if c.answered {
            ModemStep::Nothing
        } else {
            ModemStep::Answer
        }
    } else if new == call_state::TERMINATED {
        ModemStep::End { why: Ending::MobileEnded, code: ended_code(cause, c.answered) }
    } else {
        ModemStep::Nothing
    }
}

pub open spec fn modem_step(g: Gate, ev: ModemEvent, early_media: bool) -> ModemStep {
    match ev {
        ModemEvent::Up { .. } => ModemStep::Nothing,
        ModemEvent::Down { .. } => if g.call.is_some() {
            ModemStep::End { why: Ending::ModemGone, code: 503 }
        } else {
            ModemStep::Nothing
        },
        ModemEvent::CallAdded(path) => if g.modem && !is_own(g, path@) {
            ModemStep::ReadCall
        } else {
            ModemStep::Nothing
        },
        ModemEvent::CallDeleted(path) => if is_own(g, path@) {
            ModemStep::End { why: Ending::ObjectDeleted, code: 200 }
        } else {
            ModemStep::Nothing
        },
        ModemEvent::CallState { path, old: _, new, cause } => if is_own(g, path@) {
            state_step(g.call.unwrap(), new, cause, early_media)
        } else {
            ModemStep::Nothing
        },
        ModemEvent::Dtmf { path, .. } => if is_own(g, path@) {
            ModemStep::SendDigit
        } else {
            ModemStep::Nothing
        },
        ModemEvent::SmsAdded { .. } => if g.modem {
            ModemStep::ReadSms
        } else {
            ModemStep::Nothing
        },
    }
}

/// The modem is usable from when it is up until it is down.
pub open spec fn after_modem(g: Gate, ev: ModemEvent) -> Gate {
    match ev {
        ModemEvent::Up { .. } => Gate { modem: true, ..g },
        ModemEvent::Down { .. } => Gate { modem: false, ..g },
        _ => g,
    }
}

/// What became of a call object that was reported.
#[derive(Debug, Clone, Copy, PartialEq, Eq, Structural)]
pub enum Added {
    /// It has ended already: nothing owns it, and nothing would delete it later.
    Delete,
    /// It is hung up.
    HangUp,
    /// It is offered to the SIP side.
    Offer,
}

pub open spec fn added_step(g: Gate, info: CallInfo) -> Added {
    if info.state == call_state::TERMINATED {
        Added::Delete
    } else if info.direction != call_state::DIR_INCOMING || g.call.is_some() {
        Added::HangUp
    } else {
        Added::Offer
    }
}

fn own_path(call: &Option<ActiveCall>, path: &str) -> (r: bool)
    ensures
        r == match super::opt_call(*call) {
            Some(c) => c.mm_path == Some(path@),
            None => false,
        },
{
    match call {
        Some(c) => match &c.mm_path {
            Some(p) => text::str_is(p.as_str(), path),
            None => false,
        },
        None => false,
    }
}

fn state_changed(call: &ActiveCall, new: i32, cause: u32, early_media: bool) -> (r: ModemStep)
    ensures
        r == state_step(call@, new, cause, early_media),
{
    if new == call_state::RINGING_OUT || new == call_state::DIALING {
        match call.role {
            Role::FromSip => if call.ringing_sent {
                ModemStep::Nothing
            } else {
                ModemStep::Ring { early_media }
            },
            Role::ToSip => ModemStep::Nothing,
        }
    } else if new == call_state::ACTIVE {
        if call.answered {
            ModemStep::Nothing
        } else {
            ModemStep::Answer
        }
    } else if new == call_state::TERMINATED {
        let code = if cause == call_state::REASON_REFUSED_OR_BUSY {
            486
        } else if cause == call_state::REASON_ERROR || cause
            == call_state::REASON_AUDIO_SETUP_FAILED {
            500
        } else if call.answered {
            200
        } else {
            480
        };
        ModemStep::End { why: Ending::MobileEnded, code }
    } else {
        ModemStep::Nothing
    }
}

impl Gateway {
    /// What an event of the modem asks for, with early media allowed or not.
    pub fn on_modem_event(&mut self, ev: &ModemEvent, early_media: bool) -> (r: ModemStep)
        ensures
            r == modem_step(old(self)@, *ev, early_media),
            final(self)@ == after_modem(old(self)@, *ev),
    {
        match ev {
            ModemEvent::Up { .. } => {
                self.modem = true;
                ModemStep::Nothing
            },
            ModemEvent::Down { .. } => {
                self.modem = false;
                if self.call.is_some() {
                    ModemStep::End { why: Ending::ModemGone, code: 503 }
                } else {
                    ModemStep::Nothing
                }
            },
            ModemEvent::CallAdded(path) => if self.modem && !own_path(&self.call, path.as_str()) {
                ModemStep::ReadCall
            } else {
                ModemStep::Nothing
            },
            ModemEvent::CallDeleted(path) => if own_path(&self.call, path.as_str()) {
                ModemStep::End { why: Ending::ObjectDeleted, code: 200 }
            } else {
                ModemStep::Nothing
            },
            ModemEvent::CallState { path, old: _, new, cause } => if own_path(
                &self.call,
                path.as_str(),
            ) {
                match &self.call {
                    Some(c) => state_changed(c, *new, *cause, early_media),
                    None => ModemStep::Nothing,
                }
            } else {
                ModemStep::Nothing
            },
            ModemEvent::Dtmf { path, .. } => if own_path(&self.call, path.as_str()) {
                ModemStep::SendDigit
            } else {
                ModemStep::Nothing
            },
            ModemEvent::SmsAdded { .. } => if self.modem {
                ModemStep::ReadSms
            } else {
                ModemStep::Nothing
            },
        }
    }

    /// What to do with a call object that is not the call in progress.
    pub fn on_mm_call_added(&self, info: &CallInfo) -> (r: Added)
        ensures
            r == added_step(self@, *info),
    {
        if info.state == call_state::TERMINATED {
            Added::Delete
        } else if info.direction != call_state::DIR_INCOMING || self.call.is_some() {
            Added::HangUp
        } else {
            Added::Offer
        }
    }

    /// The call is answered. Returns the record in which that is to be noted.
    pub fn on_modem_answered(&mut self) -> (r: Option<i64>)
        ensures
            match old(self)@.call {
                Some(c) => r == c.cdr_id && final(self)@ == (Gate {
                    call: Some(Call { answered: true, ..c }),
                    ..old(self)@
                }),
                None => r.is_none() && final(self)@ == old(self)@,
            },
    {
        match self.call.take() {
            Some(c) => {
                let mut call = c;
                call.answered = true;
                let id = call.cdr_id;
                self.call = Some(call);
                id
            },
            None => None,
        }
    }
}

/// One modem carries one call: while there is one, every other is hung up or deleted, and none is
/// offered.
pub proof fn law_one_call_at_a_time(g: Gate, info: CallInfo)
    requires
        g.call.is_some(),
    ensures
        added_step(g, info) != Added::Offer,
{
}

/// The caller of a call that was refused by the network is told so; an end that nobody explains is
/// a failure to a caller that was never answered.
pub proof fn law_the_network_decides_the_code(cause: u32)
    ensures
        ended_code(call_state::REASON_REFUSED_OR_BUSY, false) == 486,
        ended_code(cause, false) >= 400,
{
}

// ------------------------------------------------------------------ offering a call to SIP

/// The caller as a party: an unknown one is anonymous.
pub open spec fn caller_party(e: Element, caller: Seq<char>, tag: Seq<char>) -> uri::Party {
    uri::party_with(
        uri::Party {
            display: Some(caller),
            uri: plain_address(
                if caller.len() == 0 {
                    "anonymous"@
                } else {
                    caller
                },
                engine::domain_of(e),
            ),
            params: seq![],
        },
        "tag"@,
        tag,
    )
}

/// The address of a user at a host.
pub open spec fn plain_address(user: Seq<char>, host: Seq<char>) -> uri::Address {
    uri::Address {
        scheme: "sip"@,
        user: Some(user),
        password: None,
        host,
        port: None,
        params: seq![],
        headers: seq![],
    }
}

/// A Call-ID of ours.
pub open spec fn own_call_id(random: Seq<char>) -> Seq<char> {
    random + "@modem2sip"@
}

/// The INVITE that offers a call of the mobile network.
pub open spec fn offering(
    e: Element,
    cfg: Config,
    caller: Seq<char>,
    target: uri::Address,
    route: Option<IpAddr>,
    port: u16,
    tag: Seq<char>,
    random: Seq<char>,
    branch: Seq<char>,
    now: u64,
) -> message::Asked {
    let base = engine::own_request(
        e.transport,
        e.cfg.user_agent@,
        Method::Invite,
        target,
        caller_party(e, caller, tag),
        uri::Party { display: None, uri: uri::bare_address(target), params: seq![] },
        own_call_id(random),
        e.cseq,
        route,
        true,
        branch,
    );
    let f = message::with_field(base.headers, "content-type"@, "application/sdp"@);
    message::Asked {
        headers: message::with_field(f, "allow"@, call::ALLOWED@),
        body: vstd::utf8::encode_utf8(
            sdp::session_text(
                sdp::offered(
                    device::rtp_advertised(cfg.rtp, e.transport, route),
                    port,
                    Some(cfg.rtp.dtmf_payload_type),
                    cfg.audio.period_ms,
                    now,
                ),
            ),
        ),
        ..base
    }
}

/// The call that is offered.
pub open spec fn offered_call(
    e: Element,
    caller: Seq<char>,
    mm_path: Seq<char>,
    target: uri::Address,
    dest: SocketAddr,
    port: u16,
    tag: Seq<char>,
    random: Seq<char>,
    invite: message::Asked,
) -> Call {
    Call {
        role: Role::ToSip,
        mm_path: Some(mm_path),
        peer_number: caller,
        call_id: own_call_id(random),
        local: caller_party(e, caller, tag),
        remote: uri::Party { display: None, uri: uri::bare_address(target), params: seq![] },
        remote_target: target,
        remote_addr: dest,
        local_cseq: e.cseq,
        invite,
        invite_src: None,
        media: false,
        local_rtp_port: port,
        codec: Codec::Pcmu,
        remote_sdp: None,
        media_dtmf_pt: None,
        answered: false,
        auth_retried: false,
        ringing_sent: false,
        early_media: false,
        dtmf_via_modem_failed: false,
        cdr_id: None,
    }
}

/// The call that offers a call of the mobile network to a SIP target, given the source address
/// towards it, the port of its media, the random parts of the INVITE and the time. The INVITE of the
/// call is to be sent to the destination.
pub fn start_sip_call(
    core: &mut SipCore,
    cfg: &Config,
    info: &CallInfo,
    target: Uri,
    dest: SocketAddr,
    route: Option<IpAddr>,
    port: u16,
    tag: &str,
    random: &str,
    branch: &str,
    now: u64,
) -> (r: ActiveCall)
    requires
        old(core).wf(),
    ensures
        final(core).wf(),
        final(core)@ == (Element {
            cseq: ((old(core)@.cseq + 1) % 0x1_0000_0000) as u32,
            ..old(core)@
        }),
        r@ == offered_call(
            old(core)@,
            number::shown_number(*cfg, info.number@),
            info.path@,
            target@,
            dest,
            port,
            tag@,
            random@,
            offering(
                old(core)@,
                *cfg,
                number::shown_number(*cfg, info.number@),
                target@,
                route,
                port,
                tag@,
                random@,
                branch@,
                now,
            ),
        ),
{
    let advertised = device::rtp_advertised_ip(&cfg.rtp, &core.transport, route);
    let offer = Sdp::offer_at(
        advertised,
        port,
        Some(cfg.rtp.dtmf_payload_type),
        cfg.audio.period_ms,
        now,
    );
    let caller = number::show_number(cfg, info.number.as_str());
    let domain = core.domain();
    let from_user = if text::chars_of(caller.as_str()).len() == 0 {
        text::owned("anonymous")
    } else {
        text::owned(caller.as_str())
    };
    let from = NameAddr {
        display: Some(text::owned(caller.as_str())),
        uri: Uri::new(Some(from_user.as_str()), domain.as_str(), None),
        params: Vec::new(),
    }.with_tag(tag);
    let to = NameAddr::new(target.bare());
    let mut call_id = text::owned(random);
    call_id.append("@modem2sip");
    let cseq = core.next_cseq();
    let mut invite = core.build_request_with(
        Method::Invite,
        target.clone(),
        &from,
        &to,
        call_id.as_str(),
        cseq,
        route,
        true,
        branch,
    );
    invite.headers.set("content-type", "application/sdp");
    invite.headers.set("allow", call::ALLOWED);
    invite.body = vstd::slice::slice_to_vec(offer.to_string().as_str().as_bytes());
    ActiveCall {
        role: Role::ToSip,
        mm_path: Some(text::owned(info.path.as_str())),
        peer_number: caller,
        call_id,
        local: from,
        remote: to,
        remote_target: target,
        remote_addr: dest,
        local_cseq: cseq,
        invite,
        invite_src: None,
        media: false,
        local_rtp_port: port,
        codec: Codec::Pcmu,
        remote_sdp: None,
        media_dtmf_pt: None,
        answered: false,
        auth_retried: false,
        ringing_sent: false,
        early_media: false,
        dtmf_via_modem_failed: false,
        cdr_id: None,
    }
}

impl Gateway {
    /// A call is in progress from now on, under its record.
    pub fn begin(&mut self, call: ActiveCall, cdr_id: Option<i64>)
        ensures
            final(self)@ == (Gate { call: Some(Call { cdr_id, ..call@ }), ..old(self)@ }),
    {
        let mut c = call;
        c.cdr_id = cdr_id;
        self.call = Some(c);
    }
}

// ------------------------------------------------------------------ early media

/// How long the watch for early media listens before it looks at the level, in milliseconds.
pub const WINDOW_MS: u64 = 120;

/// The level from which on a window is not silence. The noise floor of an idle path is around 20, a
/// ringback tone or an announcement is a few thousand.
pub const LOUD: u32 = 150;

/// How many windows in a row have to be loud; two keep a click from counting.
pub const LOUD_WINDOWS: u8 = 2;

/// The watch over what the modem sends towards the caller while a call is ringing.
#[derive(Debug, Clone, Copy, PartialEq, Eq, Structural)]
pub struct Listener {
    pub energy: u32,
    pub frames: u32,
    /// How many windows in a row were loud.
    pub streak: u8,
}

/// The average level of what arrived since the last look, if anything did.
pub open spec fn level_since(l: Listener, energy: u32, frames: u32) -> Option<u32> {
    if frames <= l.frames {
        None
    } else if energy <= l.energy {
        Some(0)
    } else {
        Some((((energy - l.energy) as int) / ((frames - l.frames) as int)) as u32)
    }
}

pub open spec fn after_window(l: Listener, energy: u32, frames: u32) -> Listener {
    Listener {
        energy,
        frames,
        streak: match level_since(l, energy, frames) {
            Some(level) => if level >= LOUD {
                (l.streak + 1) as u8
            } else {
                0
            },
            None => l.streak,
        },
    }
}

impl Listener {
    pub open spec fn wf(&self) -> bool {
        self.streak < LOUD_WINDOWS
    }

    pub fn new(energy: u32, frames: u32) -> (r: Self)
        ensures
            r == (Listener { energy, frames, streak: 0 }),
            r.wf(),
    {
        Listener { energy, frames, streak: 0 }
    }

    /// A window has passed. Returns the level once the network plays something, and the watch is
    /// over.
    pub fn window(&mut self, energy: u32, frames: u32) -> (r: Option<u32>)
        requires
            old(self).wf(),
        ensures
            *final(self) == after_window(*old(self), energy, frames),
            r == if after_window(*old(self), energy, frames).streak >= LOUD_WINDOWS {
                level_since(*old(self), energy, frames)
            } else {
                None
            },
            r.is_none() ==> final(self).wf(),
    {
        let d_energy = if energy > self.energy {
            energy - self.energy
        } else {
            0
        };
        let d_frames = if frames > self.frames {
            frames - self.frames
        } else {
            0
        };
        self.energy = energy;
        self.frames = frames;
        if d_frames == 0 {
            return None;
        }
        let level = d_energy / d_frames;
        if level >= LOUD {
            self.streak = self.streak + 1;
            if self.streak >= LOUD_WINDOWS {
                return Some(level);
            }
        } else {
            self.streak = 0;
        }
        None
    }
}

/// One loud window, a click, is not enough: the caller is told to listen only after a second one
/// without a quiet one between.
pub proof fn law_a_click_is_not_early_media(energy: u32, frames: u32, e1: u32, f1: u32, e2: u32, f2: u32)
    ensures
        ({
            let l = Listener { energy, frames, streak: 0 };
            let l1 = after_window(l, e1, f1);
            let l2 = after_window(l1, e2, f2);
            &&& l1.streak < LOUD_WINDOWS
            &&& l2.streak >= LOUD_WINDOWS ==> level_since(l1, e2, f2).is_some() && level_since(
                l1,
                e2,
                f2,
            ).unwrap() >= LOUD && level_since(l, e1, f1).is_some() && level_since(
                l,
                e1,
                f1,
            ).unwrap() >= LOUD
        }),
{
}

// ------------------------------------------------------------------ digits towards the mobile network

/// How digits are delivered.
#[derive(Debug, Clone, Copy, PartialEq, Eq, Structural)]
pub enum DtmfStep {
    /// Nothing is left to do; whether that counts as delivered.
    Done(bool),
    /// Ask the modem to signal them.
    Modem,
    /// Play the tones into the uplink audio.
    Inband,
}

/// Playing the tones takes a media session.
pub open spec fn inband_step(g: Gate) -> DtmfStep {
    match g.call {
        Some(c) => if c.media {
            DtmfStep::Inband
        } else {
            DtmfStep::Done(false)
        },
        None => DtmfStep::Done(false),
    }
}

/// Whether the modem can be asked to signal a digit.
pub open spec fn modem_can_signal(g: Gate) -> bool {
    g.modem && g.call.is_some() && g.call.unwrap().mm_path.is_some()
}

/// The modem is asked first, unless it refused once during this call; where it is the only way and
/// cannot be asked, the digits are lost.
pub open spec fn dtmf_step(g: Gate, method: DtmfMethod, digits: Seq<char>) -> DtmfStep {
    if method == DtmfMethod::Off || digits.len() == 0 {
        DtmfStep::Done(true)
    } else if method == DtmfMethod::Modem {
        if modem_can_signal(g) {
            DtmfStep::Modem
        } else {
            DtmfStep::Done(false)
        }
    } else if method == DtmfMethod::Auto && modem_can_signal(g)
        && !g.call.unwrap().dtmf_via_modem_failed {
        DtmfStep::Modem
    } else {
        inband_step(g)
    }
}

/// Where the modem is only asked first, a refusal holds for the rest of the call.
pub open spec fn after_dtmf_refusal(g: Gate, method: DtmfMethod) -> Gate {
    match g.call {
        Some(c) => if method == DtmfMethod::Modem {
            g
        } else {
            Gate { call: Some(Call { dtmf_via_modem_failed: true, ..c }), ..g }
        },
        None => g,
    }
}

impl Gateway {
    fn play_inband(&self) -> (r: DtmfStep)
        ensures
            r == inband_step(self@),
    {
        match &self.call {
            Some(c) => if c.media {
                DtmfStep::Inband
            } else {
                DtmfStep::Done(false)
            },
            None => DtmfStep::Done(false),
        }
    }

    /// Send digits towards the mobile network.
    ///
    /// Whether the modem can signal a digit is decided per call, not per modem: `Call.SendDtmf` fails
    /// when the codec negotiated for this call leaves the firmware no way to send one, and the next
    /// call may negotiate something that works.
    pub fn deliver_dtmf(&self, method: DtmfMethod, digits: &str) -> (r: DtmfStep)
        ensures
            r == dtmf_step(self@, method, digits@),
    {
        if text::chars_of(digits).len() == 0 {
            return DtmfStep::Done(true);
        }
        let (can_ask, failed) = match &self.call {
            Some(c) => (self.modem && c.mm_path.is_some(), c.dtmf_via_modem_failed),
            None => (false, false),
        };
        match method {
            DtmfMethod::Off => DtmfStep::Done(true),
            DtmfMethod::Modem => if can_ask {
                DtmfStep::Modem
            } else {
                DtmfStep::Done(false)
            },
            DtmfMethod::Auto => if can_ask && !failed {
                DtmfStep::Modem
            } else {
                self.play_inband()
            },
            DtmfMethod::Inband => self.play_inband(),
        }
    }

    /// The modem refused to signal the digits.
    pub fn on_dtmf_refused(&mut self, method: DtmfMethod) -> (r: DtmfStep)
        ensures
            final(self)@ == after_dtmf_refusal(old(self)@, method),
            r == if method == DtmfMethod::Modem {
                DtmfStep::Done(false)
            } else {
                inband_step(old(self)@)
            },
    {
        match method {
            DtmfMethod::Modem => DtmfStep::Done(false),
            _ => {
                if let Some(c) = self.call.take() {
                    let mut call = c;
                    call.dtmf_via_modem_failed = true;
                    self.call = Some(call);
                }
                self.play_inband()
            },
        }
    }
}

/// A refusal of the modem makes the rest of this call, and of no other, play its digits in-band.
pub proof fn law_a_refusal_holds_for_the_call(g: Gate, digits: Seq<char>, next: Call)
    requires
        g.call.is_some(),
        digits.len() > 0,
        !next.dtmf_via_modem_failed,
        next.mm_path.is_some(),
        g.modem,
    ensures
        dtmf_step(after_dtmf_refusal(g, DtmfMethod::Auto), DtmfMethod::Auto, digits) == inband_step(
            g,
        ),
        dtmf_step(Gate { call: Some(next), ..g }, DtmfMethod::Auto, digits) == DtmfStep::Modem,
{
}

} // verus!
