//! What the gateway owes its two sides: every call and message that it can carry is carried, to the
//! number that was asked for and with nothing of its content changed.
use vstd::prelude::*;
use vstd::utf8::encode_utf8;

use crate::config::{Config, DtmfMethod};
use crate::mm::watcher::ModemEvent;
use crate::mm::{CallInfo, SmsInfo};
use crate::net::{IpAddr, SocketAddr};
use crate::sip::engine::Element;
use crate::sip::message;
use crate::sip::message::Method;
use crate::sip::round_trip;
use crate::sip::sdp;
use crate::sip::sdp::Codec;
use crate::sip::service;
use crate::sip::uri;
use crate::text;
use super::call;
use super::call::{Call, Role};
use super::messaging;
use super::messaging::{Messaged, SmsStep};
use super::modem_side;
use super::modem_side::{Added, DtmfStep, Listener, ModemStep};
use super::number;
use super::sip_side;
use super::sip_side::{Invited, Wanted};
use super::{Ending, Gate, LastWord};

verus! {

// ------------------------------------------------------------------ calls from the SIP side

/// Of the payload types of a description the first that is PCMU or PCMA decides the codec; one that
/// holds neither gives none.
pub proof fn law_the_first_codec_is_taken(pts: Seq<u8>)
    ensures
        forall|i: int|
            0 <= i < pts.len() && (#[trigger] pts[i] == 0 || pts[i] == 8) && (forall|j: int|
                0 <= j < i ==> #[trigger] pts[j] != 0 && pts[j] != 8) ==> sdp::first_codec(pts)
                == Some(
                if pts[i] == 0 {
                    Codec::Pcmu
                } else {
                    Codec::Pcma
                },
            ),
        sdp::first_codec(pts).is_none() <==> forall|i: int|
            0 <= i < pts.len() ==> #[trigger] pts[i] != 0 && pts[i] != 8,
    decreases pts.len(),
{
    if pts.len() > 0 {
        let r = pts.skip(1);
        law_the_first_codec_is_taken(r);
        if pts[0] != 0 && pts[0] != 8 {
            assert forall|i: int|
                0 <= i < pts.len() && (#[trigger] pts[i] == 0 || pts[i] == 8) && (forall|j: int|
                    0 <= j < i ==> #[trigger] pts[j] != 0 && pts[j] != 8) implies sdp::first_codec(
                pts,
            ) == Some(
                if pts[i] == 0 {
                    Codec::Pcmu
                } else {
                    Codec::Pcma
                },
            ) by {
                assert(r[i - 1] == pts[i]);
                assert forall|j: int| 0 <= j < i - 1 implies #[trigger] r[j] != 0 && r[j] != 8 by {
                    assert(r[j] == pts[j + 1]);
                }
            }
            if sdp::first_codec(pts).is_none() {
                assert forall|i: int| 0 <= i < pts.len() implies #[trigger] pts[i] != 0 && pts[i]
                    != 8 by {
                    if i > 0 {
                        assert(r[i - 1] == pts[i]);
                    }
                }
            }
            if forall|i: int| 0 <= i < pts.len() ==> #[trigger] pts[i] != 0 && pts[i] != 8 {
                assert forall|i: int| 0 <= i < r.len() implies #[trigger] r[i] != 0 && r[i] != 8 by {
                    assert(r[i] == pts[i + 1]);
                }
            }
        }
    }
}

/// While the modem is up and no call is in progress, an INVITE is placed where its user holds
/// something that can be dialled, its description offers PCMU or PCMA with media, and it says from
/// whom, to whom and under which call it is. The number placed is that user, of which the leading
/// plus, the digits, the stars and the hashes are kept; the rest is what the INVITE says.
pub proof fn law_a_call_is_placed(
    g: Gate,
    req: message::Asked,
    user: Seq<char>,
    description: Seq<char>,
    offer: sdp::Session,
    k: int,
    to: uri::Party,
    from: uri::Party,
    call_id: Seq<char>,
)
    requires
        g.modem,
        g.call.is_none(),
        req.uri.user == Some(user),
        exists|i: int|
            0 <= i < user.len() && ('0' <= #[trigger] user[i] <= '9' || user[i] == '*' || user[i]
                == '#'),
        req.body == encode_utf8(description),
        sdp::session_of(description) == Some(offer),
        0 <= k < offer.payload_types.len(),
        offer.payload_types[k] == 0 || offer.payload_types[k] == 8,
        forall|j: int|
            0 <= j < k ==> #[trigger] offer.payload_types[j] != 0 && offer.payload_types[j] != 8,
        offer.port != 0,
        offer.address != IpAddr::V4(0),
        offer.address != IpAddr::V6(0),
        message::party_field(req.headers, "to"@) == Some(to),
        message::party_field(req.headers, "from"@) == Some(from),
        message::field(req.headers, "call-id"@) == Some(call_id),
    ensures
        sip_side::invited(g, req) == Invited::Place(
            Wanted {
                number: (if exists|i: int|
                    0 <= i < user.len() && #[trigger] user[i] == '+' && forall|j: int|
                        0 <= j < i ==> text::is_space(#[trigger] user[j]) {
                    seq!['+']
                } else {
                    seq![]
                }) + user.filter(|c: char| '0' <= c <= '9' || c == '*' || c == '#'),
                sdp: offer,
                codec: if offer.payload_types[k] == 0 {
                    Codec::Pcmu
                } else {
                    Codec::Pcma
                },
                to,
                from,
                call_id,
                target: match message::party_field(req.headers, "contact"@) {
                    Some(c) => c.uri,
                    None => from.uri,
                },
            },
        ),
{
    number::law_what_can_be_dialled_is_dialled(user);
    number::law_a_text_with_a_digit_is_a_number(user);
    text::law_utf8_reads_back(description);
    law_the_first_codec_is_taken(offer.payload_types);
    let digits = user.filter(|c: char| '0' <= c <= '9' || c == '*' || c == '#');
    assert(Seq::<char>::empty() + digits =~= digits);
}

/// An INVITE is refused as incomplete exactly where its user holds nothing that can be dialled: no
/// digit, no star, no hash and no plus in front of all but white space.
pub proof fn law_only_what_cannot_be_dialled_is_incomplete(g: Gate, req: message::Asked)
    requires
        g.modem,
        g.call.is_none(),
    ensures
        req.uri.user.is_none() ==> sip_side::invited(g, req) == Invited::Refuse(484),
        req.uri.user matches Some(user) ==> (sip_side::invited(g, req) == Invited::Refuse(484) <==> {
            &&& user.filter(|c: char| '0' <= c <= '9' || c == '*' || c == '#').len() == 0
            &&& !exists|i: int|
                0 <= i < user.len() && #[trigger] user[i] == '+' && forall|j: int|
                    0 <= j < i ==> text::is_space(#[trigger] user[j])
        }),
{
    match req.uri.user {
        Some(user) => {
            number::law_what_can_be_dialled_is_dialled(user);
        },
        None => {
            reveal_strlit("");
            number::law_a_text_with_a_digit_is_a_number(""@);
            number::law_what_can_be_dialled_is_dialled(""@);
            assert(""@.filter(|c: char| '0' <= c <= '9' || c == '*' || c == '#').len() == 0) by {
                reveal(Seq::filter);
            }
        },
    }
}

/// Of the INVITEs that could be dialled, those without a description, without PCMU and PCMA or
/// without media are not acceptable; of the rest those that do not say from whom, to whom and under
/// which call they are, are bad requests; all others are placed.
pub proof fn law_what_keeps_a_call_from_being_placed(
    g: Gate,
    req: message::Asked,
    description: Seq<char>,
)
    requires
        g.modem,
        g.call.is_none(),
        sip_side::invited(g, req) != Invited::Refuse(484),
        req.body == encode_utf8(description),
    ensures
        sip_side::invited(g, req) == Invited::Refuse(488) <==> match sdp::session_of(description) {
            Some(s) => s.port == 0 || s.address == IpAddr::V4(0) || s.address == IpAddr::V6(0)
                || forall|i: int|
                0 <= i < s.payload_types.len() ==> #[trigger] s.payload_types[i] != 0
                    && s.payload_types[i] != 8,
            None => true,
        },
        sip_side::invited(g, req) == Invited::Refuse(400) <==> sip_side::invited(g, req)
            != Invited::Refuse(488) && (message::party_field(req.headers, "to"@).is_none()
            || message::party_field(req.headers, "from"@).is_none() || message::field(
            req.headers,
            "call-id"@,
        ).is_none()),
        sip_side::invited(g, req) is Place <==> sip_side::invited(g, req) != Invited::Refuse(488)
            && sip_side::invited(g, req) != Invited::Refuse(400),
{
    text::law_utf8_reads_back(description);
    match sdp::session_of(description) {
        Some(s) => {
            law_the_first_codec_is_taken(s.payload_types);
        },
        None => {},
    }
}

// ------------------------------------------------------------------ what the modem reports

/// While the modem is up, a call object that is reported and is not the call in progress is read;
/// while no call is in progress that is every one, so that what comes in can be offered. While it is
/// down none is.
pub proof fn law_a_new_call_object_is_read(g: Gate, path: String, early_media: bool)
    ensures
        g.modem && g.call.is_none() ==> modem_side::modem_step(
            g,
            ModemEvent::CallAdded(path),
            early_media,
        ) == ModemStep::ReadCall,
        g.modem ==> (g.call matches Some(c) ==> (modem_side::modem_step(
            g,
            ModemEvent::CallAdded(path),
            early_media,
        ) == ModemStep::ReadCall <==> c.mm_path != Some(path@))),
        g.modem ==> (g.call matches Some(c) ==> (modem_side::modem_step(
            g,
            ModemEvent::CallAdded(path),
            early_media,
        ) == ModemStep::Nothing <==> c.mm_path == Some(path@))),
        !g.modem ==> modem_side::modem_step(g, ModemEvent::CallAdded(path), early_media)
            == ModemStep::Nothing,
{
}

/// A message that is reported while the modem is up is read, whatever else goes on.
pub proof fn law_a_new_message_is_read(g: Gate, path: String, received: bool, early_media: bool)
    ensures
        modem_side::modem_step(g, ModemEvent::SmsAdded { path, received }, early_media)
            == ModemStep::ReadSms <==> g.modem,
        modem_side::modem_step(g, ModemEvent::SmsAdded { path, received }, early_media)
            == ModemStep::Nothing <==> !g.modem,
{
}

/// What is reported of an object that is not the call in progress changes nothing about that call.
pub proof fn law_only_its_own_object_moves_a_call(
    g: Gate,
    path: String,
    old_state: i32,
    new: i32,
    cause: u32,
    digit: String,
    early_media: bool,
)
    requires
        g.call matches Some(c) ==> c.mm_path != Some(path@),
    ensures
        modem_side::modem_step(
            g,
            ModemEvent::CallState { path, old: old_state, new, cause },
            early_media,
        ) == ModemStep::Nothing,
        modem_side::modem_step(g, ModemEvent::CallDeleted(path), early_media) == ModemStep::Nothing,
        modem_side::modem_step(g, ModemEvent::Dtmf { path, digit }, early_media)
            == ModemStep::Nothing,
{
}

/// What is reported of the object of the call in progress: ringing at the far end is passed on once
/// to a caller on the SIP side, an answer is passed on once, and the end of the call and the loss of
/// its object end it.
pub proof fn law_the_call_follows_its_object(
    g: Gate,
    c: Call,
    path: String,
    old_state: i32,
    new: i32,
    cause: u32,
    digit: String,
    early_media: bool,
)
    requires
        g.call == Some(c),
        c.mm_path == Some(path@),
    ensures
        ({
            let step = modem_side::modem_step(
                g,
                ModemEvent::CallState { path, old: old_state, new, cause },
                early_media,
            );
            &&& (new == 1 || new == 2) && c.role == Role::FromSip && !c.ringing_sent ==> step
                == ModemStep::Ring { early_media }
            &&& (new == 1 || new == 2) && (c.role == Role::ToSip || c.ringing_sent) ==> step
                == ModemStep::Nothing
            &&& new == 4 && !c.answered ==> step == ModemStep::Answer
            &&& new == 4 && c.answered ==> step == ModemStep::Nothing
            &&& new == 7 && cause == 5 ==> step == (ModemStep::End {
                why: Ending::MobileEnded,
                code: 486,
            })
            &&& new == 7 && (cause == 6 || cause == 7) ==> step == (ModemStep::End {
                why: Ending::MobileEnded,
                code: 500,
            })
            &&& new == 7 && !(5 <= cause <= 7) && c.answered ==> step == (ModemStep::End {
                why: Ending::MobileEnded,
                code: 200,
            })
            &&& new == 7 && !(5 <= cause <= 7) && !c.answered ==> step == (ModemStep::End {
                why: Ending::MobileEnded,
                code: 480,
            })
            &&& !(new == 1 || new == 2 || new == 4 || new == 7) ==> step == ModemStep::Nothing
        }),
        modem_side::modem_step(g, ModemEvent::CallDeleted(path), early_media) == (ModemStep::End {
            why: Ending::ObjectDeleted,
            code: 200,
        }),
        modem_side::modem_step(g, ModemEvent::Dtmf { path, digit }, early_media)
            == ModemStep::SendDigit,
{
}

/// Losing the modem ends the call in progress as unavailable and changes nothing where there is none;
/// which modem is there is remembered until the next such report, and nothing else is.
pub proof fn law_the_modem_comes_and_goes(g: Gate, up: ModemEvent, down: ModemEvent, other: ModemEvent, early_media: bool)
    requires
        up is Up,
        down is Down,
        !(other is Up),
        !(other is Down),
    ensures
        g.call.is_some() ==> modem_side::modem_step(g, down, early_media) == (ModemStep::End {
            why: Ending::ModemGone,
            code: 503,
        }),
        g.call.is_none() ==> modem_side::modem_step(g, down, early_media) == ModemStep::Nothing,
        modem_side::modem_step(g, up, early_media) == ModemStep::Nothing,
        modem_side::after_modem(g, up).modem,
        !modem_side::after_modem(g, down).modem,
        modem_side::after_modem(g, up).call == g.call,
        modem_side::after_modem(g, down).call == g.call,
        modem_side::after_modem(g, other) == g,
{
}

/// A call object that was read is offered to the SIP side where it comes in, has not ended and no
/// other call is in progress. An ended one is deleted, and every other one is hung up.
pub proof fn law_an_incoming_call_is_offered(g: Gate, info: CallInfo)
    ensures
        modem_side::added_step(g, info) == Added::Offer <==> g.call.is_none() && info.direction == 1
            && info.state != 7,
        modem_side::added_step(g, info) == Added::Delete <==> info.state == 7,
        modem_side::added_step(g, info) == Added::HangUp <==> info.state != 7 && (g.call.is_some()
            || info.direction != 1),
{
}

// ------------------------------------------------------------------ messages

/// A marked MESSAGE of plain text that names a number is sent as a short message to that number, and
/// the text that is sent is the text of its body, character for character.
pub proof fn law_a_text_is_sent_as_it_stands(
    g: Gate,
    req: message::Asked,
    to: uri::Party,
    user: Seq<char>,
    t: Seq<char>,
)
    requires
        g.modem,
        message::party_field(req.headers, "to"@) == Some(to),
        uri::pair_value(to.params, "messagetype"@) == Some("sms"@),
        to.uri.user == Some(user),
        exists|i: int|
            0 <= i < user.len() && ('0' <= #[trigger] user[i] <= '9' || user[i] == '*' || user[i]
                == '#'),
        message::field(req.headers, "content-type"@) matches Some(kind) ==> kind.len() >= 10
            && kind.take(10) == "text/plain"@ && forall|i: int|
            0 <= i <= kind.len() - 4 ==> #[trigger] kind.subrange(i, i + 4) != "json"@,
        req.body == encode_utf8(t),
    ensures
        messaging::messaged(g, req) == (Messaged::Sms {
            number: (if exists|i: int|
                    0 <= i < user.len() && #[trigger] user[i] == '+' && forall|j: int|
                        0 <= j < i ==> text::is_space(#[trigger] user[j]) {
                seq!['+']
            } else {
                seq![]
            }) + user.filter(|c: char| '0' <= c <= '9' || c == '*' || c == '#'),
            text: t,
        }),
{
    number::law_what_can_be_dialled_is_dialled(user);
    number::law_a_text_with_a_digit_is_a_number(user);
    text::law_utf8_reads_back(t);
    let digits = user.filter(|c: char| '0' <= c <= '9' || c == '*' || c == '#');
    assert(Seq::<char>::empty() + digits =~= digits);
    reveal_strlit("text/plain");
    reveal_strlit("json");
    let kind = sip_side::media_type_or(req.headers, "text/plain"@);
    assert(kind.take(10) =~= "text/plain"@);
    assert forall|i: int| 0 <= i <= kind.len() - 4 implies #[trigger] kind.subrange(i, i + 4)
        != "json"@ by {
        if message::field(req.headers, "content-type"@).is_none() {
            assert(kind.subrange(i, i + 4)[0] != 'j');
        }
    }
    text::law_a_text_is_found_where_it_stands(kind, "json"@);
}

/// What becomes of a marked MESSAGE: while the modem is gone it is put off, a document goes out as a
/// multimedia message, plain text without a number is incomplete, and what is neither is not
/// supported.
pub proof fn law_what_becomes_of_a_message(
    g: Gate,
    req: message::Asked,
    to: uri::Party,
    user: Seq<char>,
    kind: Seq<char>,
)
    requires
        message::party_field(req.headers, "to"@) == Some(to),
        uri::pair_value(to.params, "messagetype"@) == Some("sms"@),
        to.uri.user == Some(user),
        message::field(req.headers, "content-type"@) == Some(kind),
    ensures
        ({
            let json = exists|i: int|
                0 <= i <= kind.len() - 4 && #[trigger] kind.subrange(i, i + 4) == "json"@;
            let plain = kind.len() >= 10 && kind.take(10) == "text/plain"@;
            let m = messaging::messaged(g, req);
            &&& !g.modem ==> m == Messaged::Refuse(503)
            &&& g.modem && json ==> m == Messaged::Mms(number::sanitized(user))
            &&& g.modem && !json && !plain ==> m == Messaged::Refuse(415)
            &&& g.modem && !json && plain ==> (m == Messaged::Refuse(484) <==> number::sanitized(
                user,
            ).len() == 0)
            &&& g.modem && !json && plain && number::sanitized(user).len() > 0 ==> (m matches
                Messaged::Sms { number, .. } && number == number::sanitized(user))
        }),
{
    reveal_strlit("text/plain");
    reveal_strlit("json");
    text::law_a_text_is_found_where_it_stands(kind, "json"@);
}

/// The mark of a MESSAGE is read without regard to case, from the To header or the address in it, and
/// a MESSAGE that is not marked so is not supported.
pub proof fn law_only_marked_messages_are_taken(
    g: Gate,
    req: message::Asked,
    to: uri::Party,
    mark: Option<Seq<char>>,
)
    requires
        message::party_field(req.headers, "to"@) == Some(to),
        mark == match uri::pair_value(to.params, "messagetype"@) {
            Some(v) => Some(v),
            None => uri::param_value(to.uri.params, "messagetype"@),
        },
    ensures
        messaging::is_marked(req) <==> (mark matches Some(v) && text::lower(v) == "sms"@),
        !messaging::is_marked(req) ==> messaging::messaged(g, req) == Messaged::Refuse(415),
{
    reveal_strlit("sms");
    assert(text::lower("sms"@) =~= "sms"@);
}

/// A message of the modem is taken where it came in: while its pieces are still coming it is looked
/// at again, ten times at most; then it is a push where it has no text and its bytes are one, and a
/// text in every other case.
pub proof fn law_what_becomes_of_a_short_message(info: SmsInfo, received: bool, attempt: u32)
    ensures
        ({
            let step = messaging::sms_step(info, received, attempt);
            let incoming = info.pdu_type == 1 || (received && info.pdu_type != 2);
            let push = info.text@.len() == 0 && info.data@.len() > 3 && (info.data@[1] == 6
                || info.data@[1] == 7);
            &&& !incoming ==> step == SmsStep::Ignore
            &&& incoming && info.state == 2 && attempt < 10 ==> step == (SmsStep::Again {
                attempt: (attempt + 1) as u32,
            })
            &&& incoming && info.state == 2 && attempt >= 10 ==> step == SmsStep::Lost
            &&& incoming && (info.state == 1 || info.state == 3) && push ==> step == SmsStep::Push
            &&& incoming && (info.state == 1 || info.state == 3) && !push ==> step == SmsStep::Text
            &&& incoming && !(1 <= info.state <= 3) ==> step == SmsStep::Ignore
        }),
{
}

// ------------------------------------------------------------------ the call in progress

/// An INVITE under the call in progress is one of that call: answered again with what it was told
/// before, ringing or its early media, and negotiated anew once it is answered. Under any other call
/// the line is busy.
pub proof fn law_an_invite_meets_the_call_in_progress(g: Gate, c: Call, req: message::Asked)
    requires
        g.call == Some(c),
    ensures
        ({
            let own = message::field(req.headers, "call-id"@) == Some(c.call_id);
            let step = sip_side::invited(g, req);
            &&& !own ==> step == Invited::Refuse(486)
            &&& own && c.answered ==> step == Invited::Reinvite
            &&& own && !c.answered && c.early_media ==> step == Invited::Repeat
            &&& own && !c.answered && !c.early_media ==> step == Invited::Ringing
        }),
{
}

/// A call that was placed is the one that was asked for: it has the number, the description, the codec
/// and the parties of its INVITE, and this side's tag. It is neither ringing nor answered yet, the
/// answer to its INVITE goes where that came from, and reports on its call object are about it.
pub proof fn law_a_placed_call_is_the_one_asked_for(
    w: Wanted,
    path: String,
    req: message::Asked,
    src: SocketAddr,
    port: u16,
    tag: Seq<char>,
    cseq: u32,
    cdr_id: Option<i64>,
    again: message::Asked,
    cause: u32,
    early_media: bool,
)
    requires
        message::field(again.headers, "call-id"@) == Some(w.call_id),
    ensures
        ({
            let c = sip_side::placed_call(w, path@, req, src, port, tag, cseq, cdr_id);
            let g = Gate { modem: true, call: Some(c) };
            &&& c.role == Role::FromSip
            &&& c.peer_number == w.number
            &&& c.remote_sdp == Some(w.sdp)
            &&& c.codec == w.codec
            &&& c.call_id == w.call_id
            &&& c.remote == w.from
            &&& c.remote_target == w.target
            &&& c.local.uri == w.to.uri
            &&& uri::pair_value(c.local.params, "tag"@) == Some(tag)
            &&& c.invite == req
            &&& c.local_rtp_port == port
            &&& c.cdr_id == cdr_id
            &&& call::invite_dest(c) == src
            &&& !c.answered && !c.ringing_sent && !c.early_media && !c.media
            &&& sip_side::invited(g, again) == Invited::Ringing
            &&& modem_side::modem_step(
                g,
                ModemEvent::CallState { path, old: 1, new: 2, cause },
                early_media,
            ) == (ModemStep::Ring { early_media })
            &&& modem_side::modem_step(
                g,
                ModemEvent::CallState { path, old: 2, new: 4, cause },
                early_media,
            ) == ModemStep::Answer
            &&& modem_side::modem_step(g, ModemEvent::CallAdded(path), early_media)
                == ModemStep::Nothing
        }),
{
    round_trip::law_a_set_party_parameter_is_found(w.to, "tag"@, tag, "tag"@);
}

/// A request is within the dialog of a call exactly where it names the call and carries the tags that
/// the two sides have: this side's in its To, the peer's in its From.
pub proof fn law_a_dialog_is_known_by_its_tags(
    c: Call,
    req: message::Asked,
    ours: Seq<char>,
    theirs: Seq<char>,
    to: uri::Party,
    from: uri::Party,
)
    requires
        uri::pair_value(c.local.params, "tag"@) == Some(ours),
        uri::pair_value(c.remote.params, "tag"@) == Some(theirs),
        message::party_field(req.headers, "to"@) == Some(to),
        message::party_field(req.headers, "from"@) == Some(from),
    ensures
        call::in_dialog(c, req) <==> message::field(req.headers, "call-id"@) == Some(c.call_id)
            && uri::pair_value(to.params, "tag"@) == Some(ours) && uri::pair_value(
            from.params,
            "tag"@,
        ) == Some(theirs),
{
}

/// What one side of a dialog sends within it, the other takes as within it.
pub proof fn law_the_peer_is_heard_within_the_dialog(
    e: Element,
    ours: Call,
    theirs: Call,
    method: Method,
    cseq: u32,
    route: Option<IpAddr>,
    branch: Seq<char>,
)
    requires
        theirs.call_id == ours.call_id,
        theirs.local == ours.remote,
        theirs.remote == ours.local,
        round_trip::party_writable(ours.local),
        round_trip::party_writable(ours.remote),
    ensures
        call::in_dialog(ours, call::dialog_request(e, theirs, method, cseq, route, branch)),
{
    service::law_a_request_says_whose_it_is(
        e.transport,
        e.cfg.user_agent@,
        method,
        theirs.remote_target,
        theirs.local,
        theirs.remote,
        theirs.call_id,
        cseq,
        route,
        true,
        branch,
    );
    round_trip::law_a_party_reads_back(ours.local);
    round_trip::law_a_party_reads_back(ours.remote);
}

/// A caller who gives up ends the INVITE of the call that is not answered yet, with the number of that
/// INVITE and under its call; every other CANCEL ends nothing.
pub proof fn law_a_cancel_ends_its_own_invite(g: Gate, c: Call, req: message::Asked)
    requires
        g.call == Some(c),
    ensures
        sip_side::cancels_call(g, req) <==> {
            &&& c.role == Role::FromSip
            &&& !c.answered
            &&& message::field(req.headers, "call-id"@) == Some(c.call_id)
            &&& sip_side::cseq_number(req.headers) == sip_side::cseq_number(c.invite.headers)
        },
{
}

/// A call is negotiated anew where a request within its dialog, later than its INVITE, offers the codec
/// in use or offers nothing; it goes on with the media that are offered, and with those it has where
/// none are.
pub proof fn law_an_answered_call_is_renegotiated(
    c: Call,
    req: message::Asked,
    description: Seq<char>,
    offer: sdp::Session,
)
    requires
        c.answered,
        c.role == Role::ToSip || sip_side::cseq_number(c.invite.headers).is_none() && sip_side::cseq_number(
            req.headers,
        ).is_some() || (sip_side::cseq_number(c.invite.headers) matches Some(a)
            && sip_side::cseq_number(req.headers) matches Some(b) && a < b),
        call::in_dialog(c, req),
        req.body == encode_utf8(description),
    ensures
        sdp::session_of(description).is_none() ==> sip_side::reinvite_refusal(c, req).is_none()
            && sip_side::media_base(c, req) == c.remote_sdp,
        sdp::session_of(description) == Some(offer) && offer.port != 0 && offer.address
            != IpAddr::V4(0) && offer.address != IpAddr::V6(0) ==> {
            &&& sip_side::media_base(c, req) == Some(offer)
            &&& sip_side::reinvite_refusal(c, req) == (if exists|i: int|
                0 <= i < offer.payload_types.len() && #[trigger] offer.payload_types[i] == if c.codec
                    == Codec::Pcmu {
                    0u8
                } else {
                    8u8
                } {
                None
            } else {
                Some(488u16)
            })
        },
{
    text::law_utf8_reads_back(description);
}

/// The media of a call end it where the modem's audio has died, and where a peer that is to send has
/// been silent for longer than is allowed; a peer that is on hold, a call without media and no limit
/// end nothing.
pub proof fn law_silence_ends_a_call(
    c: Call,
    audio_failed: bool,
    silence_ms: u64,
    timeout_secs: u64,
)
    ensures
        ({
            let end = sip_side::media_ending(c, audio_failed, silence_ms, timeout_secs);
            let held = c.remote_sdp matches Some(s) && (s.sendrecv == sdp::Direction::RecvOnly
                || s.sendrecv == sdp::Direction::Inactive);
            &&& end == Some(Ending::AudioDied) <==> c.media && audio_failed
            &&& end == Some(Ending::PeerSilent) <==> c.media && !audio_failed && !held
                && timeout_secs > 0 && silence_ms > 1000 * timeout_secs
            &&& end.is_none() || end == Some(Ending::AudioDied) || end == Some(Ending::PeerSilent)
        }),
{
}

// ------------------------------------------------------------------ digits

/// Digits are taken by the modem where it can signal and has not refused to, and played into the call
/// where it cannot; what the configuration excludes is not tried.
pub proof fn law_digits_are_delivered(g: Gate, method: DtmfMethod, digits: Seq<char>)
    ensures
        ({
            let step = modem_side::dtmf_step(g, method, digits);
            let signals = g.modem && (g.call matches Some(c) && c.mm_path.is_some());
            let refused = g.call matches Some(c) && c.dtmf_via_modem_failed;
            let plays = g.call matches Some(c) && c.media;
            let wanted = method != DtmfMethod::Off && digits.len() > 0;
            &&& !wanted ==> step == DtmfStep::Done(true)
            &&& wanted && method == DtmfMethod::Modem && signals ==> step == DtmfStep::Modem
            &&& wanted && method == DtmfMethod::Modem && !signals ==> step == DtmfStep::Done(false)
            &&& wanted && method == DtmfMethod::Auto && signals && !refused ==> step
                == DtmfStep::Modem
            &&& wanted && method != DtmfMethod::Modem && !(method == DtmfMethod::Auto && signals
                && !refused) && plays ==> step == DtmfStep::Inband
            &&& wanted && method != DtmfMethod::Modem && !(method == DtmfMethod::Auto && signals
                && !refused) && !plays ==> step == DtmfStep::Done(false)
        }),
{
}

/// A digit that one gateway relays to another arrives there as that digit, within the dialog.
pub proof fn law_a_relayed_digit_arrives(
    e: Element,
    c: Call,
    digit: Seq<char>,
    route: Option<IpAddr>,
    branch: Seq<char>,
)
    requires
        text::is_trimmed(digit),
        !digit.contains('\n'),
    ensures
        sip_side::carried_digits(call::digit_request(e, c, digit, route, branch)) == Some(digit),
        call::digit_request(e, c, digit, route, branch).method == Method::Info,
{
    let req = call::digit_request(e, c, digit, route, branch);
    let base = call::dialog_request(e, c, Method::Info, e.cseq, route, branch);
    service::lemma_names();
    service::lemma_set(base.headers, "content-type"@, Some("application/dtmf-relay"@));
    assert(message::field(req.headers, "content-type"@) == Some("application/dtmf-relay"@));
    let body = call::relay_body(digit);
    text::law_utf8_reads_back(body);
    text::lemma_trimmed(digit);
    let kind = "application/dtmf-relay"@;
    reveal_strlit("application/dtmf-relay");
    reveal_strlit("dtmf-relay");
    assert(text::lower(kind) =~= kind);
    assert(kind.subrange(12, 12int + 10) =~= "dtmf-relay"@);
    reveal_strlit("\r\nDuration=250\r\n");
    reveal_strlit("\r\n");
    let rest = "\r\nDuration=250\r\n"@.skip(2);
    assert("\r\n"@ + rest =~= "\r\nDuration=250\r\n"@);
    assert(body =~= "Signal="@ + digit + "\r\n"@ + rest);
    number::law_the_signal_of_an_info_is_read(kind, body, digit, rest);
}

/// A MESSAGE without a To header is addressed and marked by its own address.
pub proof fn law_a_message_may_be_addressed_by_its_line(
    g: Gate,
    req: message::Asked,
    user: Seq<char>,
    t: Seq<char>,
)
    requires
        g.modem,
        message::party_field(req.headers, "to"@).is_none(),
        uri::param_value(req.uri.params, "messagetype"@) == Some("sms"@),
        req.uri.user == Some(user),
        number::sanitized(user).len() > 0,
        message::field(req.headers, "content-type"@).is_none(),
        req.body == encode_utf8(t),
    ensures
        messaging::messaged(g, req) == (Messaged::Sms { number: number::sanitized(user), text: t }),
{
    text::law_utf8_reads_back(t);
    let kind = "text/plain"@;
    reveal_strlit("text/plain");
    reveal_strlit("json");
    assert(kind.take(10) =~= kind);
    assert forall|i: int| 0 <= i <= kind.len() - 4 implies #[trigger] kind.subrange(i, i + 4)
        != "json"@ by {
        assert(kind.subrange(i, i + 4)[0] != 'j');
    }
    text::law_a_text_is_found_where_it_stands(kind, "json"@);
}

/// Without a call no request is within its dialog; while the peer has no tag yet, this side's tag and
/// the name of the call are enough.
pub proof fn law_an_early_dialog_is_known_by_one_tag(
    g: Gate,
    c: Call,
    req: message::Asked,
    ours: Seq<char>,
)
    requires
        uri::pair_value(c.local.params, "tag"@) == Some(ours),
        uri::pair_value(c.remote.params, "tag"@).is_none(),
    ensures
        g.call.is_none() ==> !sip_side::in_current_dialog(g, req),
        g.call == Some(c) ==> (sip_side::in_current_dialog(g, req) <==> message::field(
            req.headers,
            "call-id"@,
        ) == Some(c.call_id) && (message::party_field(req.headers, "to"@) matches Some(to)
            && uri::pair_value(to.params, "tag"@) == Some(ours))),
{
}

/// From an answer this side learns the peer's tag, and where the peer is reached where it can be; what
/// it says of its media is taken where there are any.
pub proof fn law_an_answer_is_learned_from(
    c: Call,
    resp: message::Answered,
    to: uri::Party,
    contact: uri::Party,
    reached: SocketAddr,
    description: Seq<char>,
    answer: sdp::Session,
)
    requires
        message::party_field(resp.headers, "to"@) == Some(to),
        message::party_field(resp.headers, "contact"@) == Some(contact),
        resp.body == encode_utf8(description),
        sdp::session_of(description) == Some(answer),
    ensures
        sip_side::learned(c, resp, Some(reached)).remote == to,
        sip_side::learned(c, resp, Some(reached)).remote_target == contact.uri,
        sip_side::learned(c, resp, Some(reached)).remote_addr == reached,
        sip_side::learned(c, resp, None).remote == to,
        sip_side::learned(c, resp, None).remote_target == c.remote_target,
        sip_side::learned(c, resp, None).remote_addr == c.remote_addr,
        sip_side::learned(c, resp, Some(reached)).call_id == c.call_id,
        sip_side::learned(c, resp, Some(reached)).local == c.local,
        sip_side::learned(c, resp, Some(reached)).mm_path == c.mm_path,
        sip_side::answered_media(resp) == (if answer.port != 0 && answer.address != IpAddr::V4(0)
            && answer.address != IpAddr::V6(0) {
            Some(answer)
        } else {
            None
        }),
{
    text::law_utf8_reads_back(description);
}

/// A number of this line's own country is shown as it is dialled there.
pub proof fn law_a_caller_is_shown_as_dialled_here(
    cfg: Config,
    code: Seq<char>,
    rest: Seq<char>,
)
    requires
        code.len() > 0,
        rest.len() > 0,
        forall|i: int| 0 <= i < code.len() ==> '0' <= #[trigger] code[i] <= '9',
        forall|i: int| 0 <= i < rest.len() ==> '0' <= #[trigger] rest[i] <= '9',
        cfg.modem.country_code matches Some(c) && c@ == code,
    ensures
        number::shown_number(cfg, seq!['+'] + code + rest) == cfg.modem.national_prefix@ + rest,
        number::shown_number(cfg, code + rest) == cfg.modem.national_prefix@ + rest,
{
    let digits = code + rest;
    assert forall|i: int| 0 <= i < digits.len() implies '0' <= #[trigger] digits[i] <= '9' by {
        if i < code.len() {
            assert(digits[i] == code[i]);
        } else {
            assert(digits[i] == rest[i - code.len()]);
        }
    }
    let full = seq!['+'] + code + rest;
    assert(full =~= seq!['+'] + digits);
    number::lemma_a_number_is_kept(digits);
    number::lemma_a_number_is_kept(full);
    assert('0' <= code[0] <= '9');
    assert('0' <= digits[digits.len() - 1] <= '9');
    text::lemma_trimmed(digits);
    text::lemma_trimmed(full);
    text::lemma_trimmed(code);
    assert(full.skip(1) =~= digits);
    assert(digits.take(code.len() as int) =~= code);
    assert(digits.skip(code.len() as int) =~= rest);
}

// ------------------------------------------------------------------ how a call ends

/// A call that was answered is ended by a BYE within its dialog; one that was not is refused to the
/// caller with a failure, the one asked for where that is one; and an offer of ours that was not
/// answered is withdrawn by a CANCEL.
pub proof fn law_a_call_ends_with_the_right_word(
    e: Element,
    c: Call,
    code: u16,
    route: Option<IpAddr>,
    tag: Seq<char>,
    branch: Seq<char>,
    word: LastWord,
)
    requires
        super::last_word(e, c, code, route, tag, branch, word),
    ensures
        c.answered ==> (word matches LastWord::Bye(req) && req@.method == Method::Bye),
        !c.answered && c.role == Role::FromSip ==> (word matches LastWord::Refuse(resp)
            && resp@.code == if code >= 400 {
            code
        } else {
            480
        }),
        !c.answered && c.role == Role::ToSip ==> (word matches LastWord::Cancel(req)
            && req@.method == Method::Cancel),
{
}

// ------------------------------------------------------------------ what is heard while it rings

/// Two windows in a row of a mean level of at least a hundred and fifty are heard, whatever came
/// before, and the level is that of the second.
pub proof fn law_a_ringback_tone_is_heard(l: Listener, e1: u32, f1: u32, e2: u32, f2: u32)
    requires
        l.wf(),
        l.frames < f1 < f2,
        e1 - l.energy >= 150 * (f1 - l.frames),
        e2 - e1 >= 150 * (f2 - f1),
    ensures
        ({
            let one = modem_side::after_window(l, e1, f1);
            let two = modem_side::after_window(one, e2, f2);
            &&& one.streak >= 2 || two.streak >= 2
            &&& modem_side::level_since(l, e1, f1) == Some(
                ((e1 - l.energy) / (f1 - l.frames)) as u32,
            )
            &&& modem_side::level_since(one, e2, f2) == Some(((e2 - e1) / (f2 - f1)) as u32)
        }),
{
    lemma_mean(e1 - l.energy, f1 - l.frames);
    lemma_mean(e2 - e1, f2 - f1);
}

/// A window whose mean level is below a hundred and fifty is silence: what was heard before it does not
/// count any more. One in which nothing arrived changes nothing.
pub proof fn law_silence_is_not_heard(l: Listener, energy: u32, frames: u32)
    requires
        l.wf(),
    ensures
        frames > l.frames && energy - l.energy < 150 * (frames - l.frames) ==> modem_side::after_window(
            l,
            energy,
            frames,
        ).streak == 0,
        frames <= l.frames ==> modem_side::after_window(l, energy, frames).streak == l.streak,
{
    if frames > l.frames && energy > l.energy && energy - l.energy < 150 * (frames - l.frames) {
        let x = energy - l.energy;
        let y = frames - l.frames;
        assert(0 <= x / y < 150) by (nonlinear_arith)
            requires
                0 <= x < 150 * y,
                y > 0,
        ;
    }
}

proof fn lemma_mean(x: int, y: int)
    requires
        150 * y <= x <= 0xffff_ffff,
        y > 0,
    ensures
        150 <= x / y <= 0xffff_ffff,
{
    assert(150 <= x / y <= x) by (nonlinear_arith)
        requires
            150 * y <= x,
            y > 0,
    ;
}

} // verus!
