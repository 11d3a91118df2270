//! The gateway state machine: one modem, one SIP endpoint, one call at a time.
//!
//! Every event is answered by a step: what the state becomes, and what is to be said or done about
//! it. Dialling, sending and playing are done by whoever runs the machine, and their outcome comes
//! back as another event.
use vstd::prelude::*;

use crate::net::IpAddr;
use crate::sip::engine::{Element, SipCore};
use crate::sip::message;
use crate::sip::message::{Method, Request, Response};
use crate::text;
use self::call::{ActiveCall, Call, Role};

pub mod call;
pub mod conversation;
pub mod device;
pub mod duties;
pub mod equipment;
pub mod messaging;
pub mod modem_side;
pub mod number;
pub mod report;
pub mod sip_side;

verus! {

/// The gateway: whether the modem is usable, and the call in progress.
#[derive(Debug)]
pub struct Gateway {
    pub modem: bool,
    pub call: Option<ActiveCall>,
}

/// The state of the gateway, mathematically.
#[verifier::ext_equal]
pub struct Gate {
    pub modem: bool,
    pub call: Option<Call>,
}

pub open spec fn opt_call(v: Option<ActiveCall>) -> Option<Call> {
    match v {
        Some(c) => Some(c@),
        None => None,
    }
}

impl View for Gateway {
    type V = Gate;

    open spec fn view(&self) -> Gate {
        Gate { modem: self.modem, call: opt_call(self.call) }
    }
}

impl Gateway {
    pub fn new() -> (r: Self)
        ensures
            r@ == (Gate { modem: false, call: None }),
    {
        Gateway { modem: false, call: None }
    }
}

// ------------------------------------------------------------------ how a call ends

/// Why a call ends.
#[derive(Debug, Clone, Copy, PartialEq, Eq, Structural)]
pub enum Ending {
    ShuttingDown,
    ModemGone,
    ObjectDeleted,
    MobileEnded,
    AnswerFailed,
    NoMedia,
    MediaFailed,
    AcceptFailed,
    AudioDied,
    PeerSilent,
    SipBye,
    SipCancel,
    SipRejected,
    RingTimeout,
}

impl Ending {
    /// What is recorded of it.
    pub fn disposition(self) -> (r: &'static str)
        ensures
            r@ == match self {
                Ending::ShuttingDown => "modem2sip is shutting down"@,
                Ending::ModemGone => "modem disappeared"@,
                Ending::ObjectDeleted => "modem call object deleted"@,
                Ending::MobileEnded => "the mobile call ended"@,
                Ending::AnswerFailed => "answering the SIP caller failed"@,
                Ending::NoMedia => "no media in the answer"@,
                Ending::MediaFailed => "media setup failed"@,
                Ending::AcceptFailed => "accept failed"@,
                Ending::AudioDied => "the modem audio stream died"@,
                Ending::PeerSilent => "the SIP peer stopped sending RTP"@,
                Ending::SipBye => "sip bye"@,
                Ending::SipCancel => "sip cancel"@,
                Ending::SipRejected => "sip rejected"@,
                Ending::RingTimeout => "ring timeout"@,
            },
    {
        match self {
            Ending::ShuttingDown => "modem2sip is shutting down",
            Ending::ModemGone => "modem disappeared",
            Ending::ObjectDeleted => "modem call object deleted",
            Ending::MobileEnded => "the mobile call ended",
            Ending::AnswerFailed => "answering the SIP caller failed",
            Ending::NoMedia => "no media in the answer",
            Ending::MediaFailed => "media setup failed",
            Ending::AcceptFailed => "accept failed",
            Ending::AudioDied => "the modem audio stream died",
            Ending::PeerSilent => "the SIP peer stopped sending RTP",
            Ending::SipBye => "sip bye",
            Ending::SipCancel => "sip cancel",
            Ending::SipRejected => "sip rejected",
            Ending::RingTimeout => "ring timeout",
        }
    }

    /// What a call that we end ourselves is ended with: a failure where something of ours failed,
    /// 503 where the modem is gone, and a plain end otherwise.
    pub fn code(self) -> (r: u16)
        ensures
            r == match self {
                Ending::AnswerFailed | Ending::MediaFailed | Ending::AcceptFailed => 500u16,
                Ending::ModemGone => 503u16,
                _ => 200u16,
            },
    {
        match self {
            Ending::AnswerFailed | Ending::MediaFailed | Ending::AcceptFailed => 500,
            Ending::ModemGone => 503,
            _ => 200,
        }
    }
}

/// The last thing that a call says on the SIP side.
#[derive(Debug)]
pub enum LastWord {
    /// The established dialog is ended.
    Bye(Request),
    /// The pending INVITE of the peer is refused.
    Refuse(Response),
    /// Our own pending INVITE is cancelled.
    Cancel(Request),
}

/// A call that is over, and what is left to say.
#[derive(Debug)]
pub struct Farewell {
    pub call: ActiveCall,
    pub word: LastWord,
    /// The mobile leg is to be hung up.
    pub hang_up: bool,
}

/// The caller never got a 2xx, so it needs a failure code: a normal end here just means we could not
/// complete the call.
pub open spec fn refusal_code(code: u16) -> u16 {
    if code < 400 {
        480
    } else {
        code
    }
}

/// The refusal of the INVITE of a call.
pub open spec fn refusal(e: Element, c: Call, code: u16, tag: Seq<char>) -> message::Answered {
    let base = call::invite_response(e, c, refusal_code(code), tag);
    if refusal_code(code) == 503 {
        message::Answered {
            headers: message::with_field(
                base.headers,
                "retry-after"@,
                text::dec(e.cfg.retry_after_secs as nat),
            ),
            ..base
        }
    } else {
        base
    }
}

/// What ends a call: BYE where it was answered, else a refusal to the caller or a CANCEL to the
/// callee.
pub open spec fn last_word(
    e: Element,
    c: Call,
    code: u16,
    route: Option<IpAddr>,
    tag: Seq<char>,
    branch: Seq<char>,
    word: LastWord,
) -> bool {
    match word {
        LastWord::Bye(req) => c.answered && req@ == call::dialog_request(
            e,
            c,
            Method::Bye,
            e.cseq,
            route,
            branch,
        ),
        LastWord::Refuse(resp) => !c.answered && c.role == Role::FromSip && resp@ == refusal(
            e,
            c,
            code,
            tag,
        ),
        LastWord::Cancel(req) => !c.answered && c.role == Role::ToSip && req@
            == call::same_transaction(c, Method::Cancel, None),
    }
}

impl Gateway {
    /// End the call, informing the SIP side with `code` where it never was answered, given the source
    /// address towards the peer and the random parts of what is said.
    pub fn teardown_call(
        &mut self,
        core: &mut SipCore,
        code: u16,
        route: Option<IpAddr>,
        tag: &str,
        branch: &str,
    ) -> (r: Option<Farewell>)
        requires
            old(core).wf(),
        ensures
            final(core).wf(),
            final(self)@ == (Gate { call: None, ..old(self)@ }),
            match (r, old(self)@.call) {
                (Some(f), Some(c)) => {
                    &&& f.call@ == c
                    &&& f.hang_up == (old(self)@.modem && c.mm_path.is_some())
                    &&& last_word(old(core)@, c, code, route, tag@, branch@, f.word)
                    &&& final(core)@ == if c.answered {
                        Element {
                            cseq: ((old(core)@.cseq + 1) % 0x1_0000_0000) as u32,
                            ..old(core)@
                        }
                    } else {
                        old(core)@
                    }
                },
                (None, None) => final(core)@ == old(core)@,
                _ => false,
            },
    {
        let call = match self.call.take() {
            Some(c) => c,
            None => {
                return None;
            },
        };
        let hang_up = self.modem && call.mm_path.is_some();
        let word = if call.answered {
            LastWord::Bye(call::build_in_dialog_request(core, &call, Method::Bye, route, branch))
        } else {
            match call::cancel_outgoing_invite(&call) {
                Some(cancel) => LastWord::Cancel(cancel),
                None => {
                    let code = if code < 400 {
                        480
                    } else {
                        code
                    };
                    let mut resp = call::respond_to_invite(core, &call, code, tag);
                    if code == 503 {
                        resp.headers.set(
                            "retry-after",
                            text::decimal(core.cfg.retry_after_secs as u64).as_str(),
                        );
                    }
                    LastWord::Refuse(resp)
                },
            }
        };
        Some(Farewell { call, word, hang_up })
    }

    /// The call is over and nothing is left to say.
    pub fn finish_call(&mut self) -> (r: Option<ActiveCall>)
        ensures
            opt_call(r) == old(self)@.call,
            final(self)@ == (Gate { call: None, ..old(self)@ }),
    {
        self.call.take()
    }
}

/// A caller that never got an answer is always told so by a failure.
pub proof fn law_an_unanswered_caller_is_refused(e: Element, c: Call, code: u16, tag: Seq<char>)
    ensures
        refusal(e, c, code, tag).code >= 400,
        code >= 400 ==> refusal(e, c, code, tag).code == code,
{
}

/// A call that the modem's disappearance ends is ended with a BYE where it was answered, and its
/// caller is told when to try again where it was not.
pub proof fn law_a_vanished_modem_ends_the_call(
    e: Element,
    c: Call,
    route: Option<IpAddr>,
    tag: Seq<char>,
    branch: Seq<char>,
    word: LastWord,
)
    requires
        last_word(e, c, 503, route, tag, branch, word),
    ensures
        c.answered ==> (word matches LastWord::Bye(req) && req@.method == Method::Bye),
        !c.answered && c.role == Role::FromSip ==> (word matches LastWord::Refuse(resp)
            && resp@.code == 503 && message::field(resp@.headers, "retry-after"@) == Some(
            text::dec(e.cfg.retry_after_secs as nat),
        )),
{
    if word is Refuse {
        let base = call::invite_response(e, c, 503, tag);
        message::law_set_then_get(
            base.headers,
            "retry-after"@,
            text::dec(e.cfg.retry_after_secs as nat),
            "to"@,
        );
    }
}

} // verus!
